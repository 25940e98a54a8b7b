//! Relative paths read the way `std::path::Path::components` reads them on Unix.
use vstd::prelude::*;

use crate::text::{split, split_text, str_eq, lemma_split_len};

verus! {

/// The pieces that name something: `Path::components` drops empty pieces and `.` after the
/// first.
pub open spec fn named_pieces(pieces: Seq<Seq<char>>) -> Seq<Seq<char>>
    decreases pieces.len(),
{
    if pieces.len() == 0 {
        Seq::empty()
    } else if pieces.last().len() == 0 || pieces.last() == "."@ {
        named_pieces(pieces.drop_last())
    } else {
        named_pieces(pieces.drop_last()).push(pieces.last())
    }
}

/// Every component of `p` is a normal one (no root, no leading `.`, no `..`), and there is at
/// least one.
pub open spec fn only_normal_components(p: Seq<char>) -> bool {
    let pieces = split(p, '/');
    &&& !(p.len() > 0 && p[0] == '/')
    &&& pieces[0] != "."@
    &&& forall|i: int| 0 <= i < pieces.len() ==> #[trigger] pieces[i] != ".."@
    &&& named_pieces(pieces).len() > 0
}

/// The components of a relative path made only of normal components, else `None`.
pub open spec fn path_components(p: Seq<char>) -> Option<Seq<Seq<char>>> {
    if only_normal_components(p) {
        Some(named_pieces(split(p, '/')))
    } else {
        None
    }
}

/// `Path::new(p).components()`, when every one is `Component::Normal`.
pub fn normal_components(p: &str) -> (r: Option<Vec<String>>)
    ensures
        match r {
            Some(v) => path_components(p@) == Some(v@.map_values(|s: String| s@)),
            None => path_components(p@) is None,
        },
{
    let pieces = split_text(p, '/');
    let ghost sp = split(p@, '/');
    proof {
        lemma_split_len(p@, '/');
        assert(pieces@.map_values(|s: String| s@) =~= sp);
    }
    if p.unicode_len() > 0 && p.get_char(0) == '/' {
        return None;
    }
    if str_eq(pieces[0].as_str(), ".") {
        return None;
    }
    let mut out: Vec<String> = Vec::new();
    let mut i: usize = 0;
    proof {
        assert(sp.subrange(0, 0) =~= Seq::<Seq<char>>::empty());
    }
    while i < pieces.len()
        invariant
            i <= pieces.len(),
            sp == split(p@, '/'),
            pieces.len() == sp.len(),
            forall|k: int| 0 <= k < pieces.len() ==> #[trigger] pieces[k]@ == sp[k],
            forall|k: int| 0 <= k < i ==> #[trigger] sp[k] != ".."@,
            out@.map_values(|s: String| s@) == named_pieces(sp.subrange(0, i as int)),
        decreases pieces.len() - i,
    {
        let piece = pieces[i].as_str();
        proof {
            assert(sp.subrange(0, i + 1).drop_last() =~= sp.subrange(0, i as int));
            assert(sp.subrange(0, i + 1).last() == piece@);
        }
        if str_eq(piece, "..") {
            return None;
        }
        if piece.unicode_len() > 0 && !str_eq(piece, ".") {
            let ghost before = out@;
            out.push(String::from_str(piece));
            proof {
                assert(out@.map_values(|s: String| s@) =~= before.map_values(|s: String| s@).push(piece@));
            }
        }
        i = i + 1;
    }
    proof {
        assert(sp.subrange(0, pieces.len() as int) =~= sp);
    }
    if out.len() == 0 {
        return None;
    }
    Some(out)
}

/// A component of a path as `Path::components` yields it on Unix.
#[derive(Debug, Clone, PartialEq, Eq)]
pub enum Part {
    Root,
    Current,
    Parent,
    Normal(String),
}

pub enum PartView {
    Root,
    Current,
    Parent,
    Normal(Seq<char>),
}

impl Part {
    pub open spec fn view(self) -> PartView {
        match self {
            Part::Root => PartView::Root,
            Part::Current => PartView::Current,
            Part::Parent => PartView::Parent,
            Part::Normal(s) => PartView::Normal(s@),
        }
    }
}

pub open spec fn parts_view(v: Seq<Part>) -> Seq<PartView> {
    v.map_values(|p: Part| p.view())
}

pub open spec fn piece_part(piece: Seq<char>) -> PartView {
    if piece == ".."@ {
        PartView::Parent
    } else {
        PartView::Normal(piece)
    }
}

/// `Path::new(p).components()`: a root for a leading `/`, a current-directory component for a
/// leading `.` piece, then each remaining named piece (`..` as a parent component).
pub open spec fn path_parts(p: Seq<char>) -> Seq<PartView> {
    let pieces = split(p, '/');
    let head = if p.len() > 0 && p[0] == '/' {
        seq![PartView::Root]
    } else if pieces[0] == "."@ {
        seq![PartView::Current]
    } else {
        Seq::empty()
    };
    head + named_pieces(pieces).map_values(|piece: Seq<char>| piece_part(piece))
}

/// The components of `p`.
pub fn components(p: &str) -> (r: Vec<Part>)
    ensures
        parts_view(r@) == path_parts(p@),
{
    let pieces = split_text(p, '/');
    let ghost sp = split(p@, '/');
    proof {
        lemma_split_len(p@, '/');
    }
    let mut out: Vec<Part> = Vec::new();
    if p.unicode_len() > 0 && p.get_char(0) == '/' {
        out.push(Part::Root);
    } else if str_eq(pieces[0].as_str(), ".") {
        out.push(Part::Current);
    }
    let ghost head = parts_view(out@);
    let mut i: usize = 0;
    proof {
        assert(sp.subrange(0, 0) =~= Seq::<Seq<char>>::empty());
        assert(parts_view(out@) =~= head + named_pieces(sp.subrange(0, 0)).map_values(|piece: Seq<char>| piece_part(piece)));
    }
    while i < pieces.len()
        invariant
            i <= pieces.len(),
            sp == split(p@, '/'),
            pieces.len() == sp.len(),
            forall|k: int| 0 <= k < pieces.len() ==> #[trigger] pieces[k]@ == sp[k],
            parts_view(out@) == head + named_pieces(sp.subrange(0, i as int)).map_values(|piece: Seq<char>| piece_part(piece)),
        decreases pieces.len() - i,
    {
        let piece = pieces[i].as_str();
        proof {
            assert(sp.subrange(0, i + 1).drop_last() =~= sp.subrange(0, i as int));
            assert(sp.subrange(0, i + 1).last() == piece@);
        }
        if piece.unicode_len() > 0 && !str_eq(piece, ".") {
            let ghost before = out@;
            let part = if str_eq(piece, "..") {
                Part::Parent
            } else {
                Part::Normal(String::from_str(piece))
            };
            proof {
                reveal_strlit("..");
            }
            out.push(part);
            proof {
                let named = named_pieces(sp.subrange(0, i as int));
                assert(named_pieces(sp.subrange(0, i + 1)) == named.push(piece@));
                assert(named.push(piece@).map_values(|q: Seq<char>| piece_part(q)) =~= named.map_values(|q: Seq<char>| piece_part(q)).push(piece_part(piece@)));
                assert(parts_view(out@) =~= parts_view(before).push(part.view()));
            }
        }
        i = i + 1;
    }
    proof {
        assert(sp.subrange(0, pieces.len() as int) =~= sp);
    }
    out
}

} // verus!
