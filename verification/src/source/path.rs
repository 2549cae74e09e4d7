//! Paths as texts, taken apart the way the system does.

use vstd::prelude::*;

use crate::text::{break_at, last_split, less, precedes, rsplit_once, same, scan, split_first};
use crate::text::{lemma_scan, opt_view, splits, texts_view, Stop};

verus! {

/// A path taken apart.
#[derive(Debug, PartialEq, Eq)]
pub struct UnixPath {
    /// Whether it starts at the root.
    pub root: bool,
    /// The names on the way.
    pub parts: Vec<String>,
}

/// What a [`UnixPath`] holds.
pub struct PathView {
    pub root: bool,
    pub parts: Seq<Seq<char>>,
}

/// Whether a piece is a name: not empty, and a single dot only in front of a
/// path that does not start at the root.
pub open spec fn counts(piece: Seq<char>, leading: bool) -> bool {
    piece.len() > 0 && (leading || piece != seq!['.'])
}

/// The pieces that are names.
pub open spec fn names(pieces: Seq<Seq<char>>, leading: bool) -> Seq<Seq<char>>
    decreases pieces.len(),
{
    if pieces.len() == 0 {
        Seq::empty()
    } else {
        let rest = names(pieces.drop_first(), false);
        if counts(pieces[0], leading) {
            seq![pieces[0]] + rest
        } else {
            rest
        }
    }
}

/// A path taken apart. Doubled slashes, slashes at the end and single dots on
/// the way do not count.
pub open spec fn components(s: Seq<char>) -> PathView {
    let root = s.len() > 0 && s[0] == '/';
    PathView { root, parts: names(splits(s, '/'), !root) }
}

impl PathView {
    /// The path without its last name; there is none at the root, nor of an
    /// empty path.
    pub open spec fn parent(self) -> Option<PathView> {
        if self.parts.len() == 0 {
            None
        } else {
            Some(PathView { root: self.root, parts: self.parts.drop_last() })
        }
    }

    /// The last name, unless it stands for the directory or the one above it.
    pub open spec fn file_name(self) -> Option<Seq<char>> {
        if self.parts.len() == 0 || self.parts.last() == seq!['.'] || self.parts.last() == seq![
            '.',
            '.',
        ] {
            None
        } else {
            Some(self.parts.last())
        }
    }

    /// What follows the last dot of the last name, if something stands in front
    /// of it.
    pub open spec fn extension(self) -> Option<Seq<char>> {
        match self.file_name() {
            Some(name) => match last_split(name, '.') {
                Some((stem, ext)) => if stem.len() == 0 {
                    None
                } else {
                    Some(ext)
                },
                None => None,
            },
            None => None,
        }
    }

    /// Whether this path comes before another, name by name from the front.
    pub open spec fn before(self, other: PathView) -> bool {
        if self.root != other.root {
            if self.root {
                other.parts.len() > 0
            } else {
                self.parts.len() == 0
            }
        } else {
            parts_before(self.parts, other.parts)
        }
    }
}

/// Where a name stands among the others: the directory itself, the one above,
/// any other.
pub open spec fn rank(name: Seq<char>) -> int {
    if name == seq!['.'] {
        0
    } else if name == seq!['.', '.'] {
        1
    } else {
        2
    }
}

/// Whether a name comes before another.
pub open spec fn name_before(a: Seq<char>, b: Seq<char>) -> bool {
    rank(a) < rank(b) || (rank(a) == rank(b) && rank(a) == 2 && precedes(a, b))
}

/// Whether a list of names comes before another.
pub open spec fn parts_before(a: Seq<Seq<char>>, b: Seq<Seq<char>>) -> bool
    decreases a.len(),
{
    if b.len() == 0 {
        false
    } else if a.len() == 0 {
        true
    } else if a[0] == b[0] {
        parts_before(a.drop_first(), b.drop_first())
    } else {
        name_before(a[0], b[0])
    }
}

fn is_dot(s: &str) -> (r: bool)
    ensures
        r == (s@ == seq!['.']),
{
    proof {
        reveal_strlit(".");
        assert("."@ =~= seq!['.']);
    }
    same(s, ".")
}

fn is_dots(s: &str) -> (r: bool)
    ensures
        r == (s@ == seq!['.', '.']),
{
    proof {
        reveal_strlit("..");
        assert(".."@ =~= seq!['.', '.']);
    }
    same(s, "..")
}

fn rank_of(s: &str) -> (r: u8)
    ensures
        r == rank(s@),
{
    if is_dot(s) {
        0
    } else if is_dots(s) {
        1
    } else {
        2
    }
}

impl UnixPath {
    pub open spec fn view(&self) -> PathView {
        PathView { root: self.root, parts: texts_view(self.parts@) }
    }

    /// Takes a path apart.
    pub fn new(s: &str) -> (r: UnixPath)
        ensures
            r@ == components(s@),
    {
        let root = match split_first(s) {
            Some((first, _)) => first == '/',
            None => false,
        };
        let mut parts: Vec<String> = Vec::new();
        let mut rest = s;
        let mut leading = !root;
        proof {
            assert(texts_view(parts@) + names(splits(s@, '/'), !root) =~= names(splits(s@, '/'), !root));
        }
        loop
            invariant
                texts_view(parts@) + names(splits(rest@, '/'), leading) == names(splits(s@, '/'), !root),
                root == (s@.len() > 0 && s@[0] == '/'),
            decreases rest@.len(),
        {
            let (piece, after) = break_at(rest, Stop::Char('/'));
            let ghost before = texts_view(parts@);
            let ghost all = splits(rest@, '/');
            let ghost was = leading;
            proof {
                lemma_scan(rest@, Stop::Char('/'));
                assert(all[0] == piece@);
            }
            if !piece.is_empty() && (leading || !is_dot(piece)) {
                parts.push(piece.to_owned());
                proof {
                    assert(texts_view(parts@) =~= before.push(piece@));
                }
            }
            leading = false;
            match split_first(after) {
                Some((_, next)) => {
                    proof {
                        assert(next@ =~= rest@.skip(scan(rest@, Stop::Char('/')) + 1));
                        assert(all.drop_first() =~= splits(next@, '/'));
                        assert(texts_view(parts@) + names(splits(next@, '/'), false) =~= before + names(
                            all,
                            was,
                        ));
                    }
                    rest = next;
                },
                None => {
                    proof {
                        assert(all.drop_first() =~= Seq::<Seq<char>>::empty());
                        assert(names(all.drop_first(), false) =~= Seq::<Seq<char>>::empty());
                        assert(texts_view(parts@) =~= before + names(all, was));
                    }
                    return UnixPath { root, parts };
                },
            }
        }
    }

    /// The path without its last name.
    pub fn parent(self) -> (r: Option<UnixPath>)
        ensures
            (match r {
                Some(p) => Some(p@),
                None => None,
            }) == self@.parent(),
    {
        let mut path = self;
        match path.parts.pop() {
            Some(_) => {
                proof {
                    assert(texts_view(path.parts@) =~= self@.parts.drop_last());
                }
                Some(path)
            },
            None => None,
        }
    }

    /// The last name.
    pub fn file_name(&self) -> (r: Option<&str>)
        ensures
            opt_view(r) == self@.file_name(),
    {
        if self.parts.len() == 0 {
            return None;
        }
        let last = self.parts[self.parts.len() - 1].as_str();
        proof {
            assert(self@.parts.last() == last@);
        }
        if is_dot(last) || is_dots(last) {
            None
        } else {
            Some(last)
        }
    }

    /// What follows the last dot of the last name.
    pub fn extension(&self) -> (r: Option<&str>)
        ensures
            opt_view(r) == self@.extension(),
    {
        match self.file_name() {
            Some(name) => match rsplit_once(name, '.') {
                Some((stem, ext)) => if stem.is_empty() {
                    None
                } else {
                    Some(ext)
                },
                None => None,
            },
            None => None,
        }
    }

    /// Whether two paths are the same, name by name.
    pub fn is_same(&self, other: &UnixPath) -> (r: bool)
        ensures
            r == (self@ == other@),
    {
        if self.root != other.root || self.parts.len() != other.parts.len() {
            proof {
                assert(self@.parts.len() == self.parts@.len());
                assert(other@.parts.len() == other.parts@.len());
            }
            return false;
        }
        for i in 0..self.parts.len()
            invariant
                self.parts@.len() == other.parts@.len(),
                forall|k: int| 0 <= k < i ==> #[trigger] self@.parts[k] == other@.parts[k],
        {
            if !same(self.parts[i].as_str(), other.parts[i].as_str()) {
                proof {
                    assert(self@.parts[i as int] != other@.parts[i as int]);
                }
                return false;
            }
        }
        proof {
            assert(self@.parts =~= other@.parts);
        }
        true
    }

    /// Whether this path comes before another.
    pub fn is_before(&self, other: &UnixPath) -> (r: bool)
        ensures
            r == self@.before(other@),
    {
        if self.root != other.root {
            return if self.root {
                other.parts.len() > 0
            } else {
                self.parts.len() == 0
            };
        }
        let ghost a = self@.parts;
        let ghost b = other@.parts;
        proof {
            assert(a.skip(0) =~= a);
            assert(b.skip(0) =~= b);
        }
        let mut i: usize = 0;
        loop
            invariant
                a == self@.parts,
                b == other@.parts,
                i <= a.len(),
                i <= b.len(),
                parts_before(a, b) == parts_before(a.skip(i as int), b.skip(i as int)),
            ensures
                i == a.len() || i == b.len() || a[i as int] != b[i as int],
                i <= a.len(),
                i <= b.len(),
                parts_before(a, b) == parts_before(a.skip(i as int), b.skip(i as int)),
            decreases a.len() - i,
        {
            if i == self.parts.len() || i == other.parts.len() || !same(
                self.parts[i].as_str(),
                other.parts[i].as_str(),
            ) {
                break ;
            }
            proof {
                assert(a.skip(i as int).drop_first() =~= a.skip(i + 1));
                assert(b.skip(i as int).drop_first() =~= b.skip(i + 1));
            }
            i += 1;
        }
        if i == other.parts.len() {
            false
        } else if i == self.parts.len() {
            true
        } else {
            let x = self.parts[i].as_str();
            let y = other.parts[i].as_str();
            let rx: u8 = rank_of(x);
            let ry: u8 = rank_of(y);
            rx < ry || (rx == ry && rx == 2 && less(x, y))
        }
    }
}

} // verus!
