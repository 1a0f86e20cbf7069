//! Paths and the selectors they are cut into.

use vstd::prelude::*;
use vstd::string::*;
use crate::error::{Error, ErrorView};

verus! {

/// Whether `syn::parse_str::<syn::Ident>` returns `Ok` for the string, that
/// is, whether `syn` reads the string as one identifier.
pub uninterp spec fn ident_accepted(s: Seq<char>) -> bool;

/// Asks `syn::parse_str::<syn::Ident>` whether it returns `Ok` for `s`. The
/// answer depends on the characters of `s` alone; that is all that is claimed
/// of it, and it is taken on trust.
#[verifier::external_body]
fn parses_as_ident(s: &str) -> (r: bool)
    ensures
        r == ident_accepted(s@),
{
    syn::parse_str::<syn::Ident>(s).is_ok()
}

/// A segment is valid when it is not empty and is an identifier.
pub open spec fn is_segment(s: Seq<char>) -> bool {
    s.len() > 0 && ident_accepted(s)
}

/// Whether the two characters at `pos` and `pos + 1` are the separator `::`.
pub open spec fn is_separator_at(s: Seq<char>, pos: int) -> bool {
    0 <= pos && pos + 1 < s.len() && s[pos] == ':' && s[pos + 1] == ':'
}

/// The segments of `s` from `start` on, where no separator begins in
/// `start..pos`. Separators are taken from left to right and do not overlap.
pub open spec fn split_from(s: Seq<char>, start: int, pos: int) -> Seq<Seq<char>>
    decreases s.len() - pos,
{
    if pos >= s.len() {
        seq![s.subrange(start, s.len() as int)]
    } else if is_separator_at(s, pos) {
        seq![s.subrange(start, pos)] + split_from(s, pos + 2, pos + 2)
    } else {
        split_from(s, start, pos + 1)
    }
}

/// The pieces between the separators of a path, in order. There is always at
/// least one piece; pieces may be empty.
pub open spec fn split_path(s: Seq<char>) -> Seq<Seq<char>> {
    split_from(s, 0, 0)
}

/// The number of separators that begin at `pos` or later.
pub open spec fn separators_from(s: Seq<char>, pos: int) -> nat
    decreases s.len() - pos,
{
    if pos >= s.len() {
        0
    } else if is_separator_at(s, pos) {
        1 + separators_from(s, pos + 2)
    } else {
        separators_from(s, pos + 1)
    }
}

/// The number of separators in a path.
pub open spec fn separator_count(s: Seq<char>) -> nat {
    separators_from(s, 0)
}

/// For each piece, whether it is accepted as an identifier.
pub open spec fn verdicts(segs: Seq<Seq<char>>) -> Seq<bool> {
    segs.map_values(|s: Seq<char>| ident_accepted(s))
}

/// The index of the first piece from `from` on that is refused, because it is
/// empty or because `accepted` says that it is no identifier; the number of
/// pieces if none is refused.
pub open spec fn first_refused_from(pieces: Seq<Seq<char>>, accepted: Seq<bool>, from: int) -> int
    decreases pieces.len() - from,
{
    if from >= pieces.len() {
        pieces.len() as int
    } else if pieces[from].len() == 0 || !accepted[from] {
        from
    } else {
        first_refused_from(pieces, accepted, from + 1)
    }
}

/// The index of the first piece from `from` on that is no valid segment, or
/// the number of pieces if all are valid.
pub open spec fn first_invalid(segs: Seq<Seq<char>>, from: int) -> int {
    first_refused_from(segs, verdicts(segs), from)
}

/// What parsing a path gives: the empty path is refused as such, a path with
/// an invalid piece is refused with the first such piece, and any other path
/// gives its pieces.
pub open spec fn parse_spec(path: Seq<char>) -> Result<Seq<Seq<char>>, ErrorView> {
    let segs = split_path(path);
    let k = first_invalid(segs, 0);
    if path.len() == 0 {
        Err(ErrorView::EmptyPath)
    } else if k < segs.len() {
        Err(ErrorView::InvalidSegment(segs[k]))
    } else {
        Ok(segs)
    }
}

/// The values of a vector of strings.
pub open spec fn strings_view(v: Seq<String>) -> Seq<Seq<char>> {
    v.map_values(|s: String| s@)
}

/// An ordered, non-empty sequence of identifiers that names a place in a tree.
#[derive(Debug, PartialEq, Eq)]
pub struct Selector {
    segments: Vec<String>,
}

impl View for Selector {
    type V = Seq<Seq<char>>;

    closed spec fn view(&self) -> Seq<Seq<char>> {
        strings_view(self.segments@)
    }
}

/// Cuts a path at its separators. Nothing is checked: pieces may be empty.
pub fn split(path: &str) -> (pieces: Vec<String>)
    ensures
        strings_view(pieces@) == split_path(path@),
{
    let n = path.unicode_len();
    let ghost all = split_path(path@);
    let mut pieces: Vec<String> = Vec::new();
    let mut start: usize = 0;
    let mut pos: usize = 0;
    while pos < n
        invariant
            n == path@.len(),
            all == split_path(path@),
            start <= pos <= n,
            all == strings_view(pieces@) + split_from(path@, start as int, pos as int),
        decreases n - pos,
    {
        if pos + 1 < n && path.get_char(pos) == ':' && path.get_char(pos + 1) == ':' {
            let piece = path.substring_char(start, pos);
            assert(is_separator_at(path@, pos as int));
            let ghost before = strings_view(pieces@);
            pieces.push(piece.to_owned());
            pos = pos + 2;
            start = pos;
            proof {
                assert(strings_view(pieces@) =~= before.push(piece@));
                assert(all =~= strings_view(pieces@) + split_from(
                    path@,
                    start as int,
                    pos as int,
                ));
            }
        } else {
            assert(!is_separator_at(path@, pos as int));
            pos += 1;
        }
    }
    let piece = path.substring_char(start, n);
    let ghost before = strings_view(pieces@);
    pieces.push(piece.to_owned());
    proof {
        assert(strings_view(pieces@) =~= before.push(piece@));
        assert(all =~= strings_view(pieces@));
    }
    pieces
}

/// The position of the first piece that is refused, where `accepted` says of
/// each piece whether it is an identifier. An empty piece is refused whatever
/// `accepted` says of it.
pub fn first_refused(pieces: &Vec<String>, accepted: &Vec<bool>) -> (r: Option<usize>)
    requires
        accepted@.len() == pieces@.len(),
    ensures
        match r {
            Some(k) => k < pieces@.len() && k == first_refused_from(
                strings_view(pieces@),
                accepted@,
                0,
            ),
            None => first_refused_from(strings_view(pieces@), accepted@, 0) == pieces@.len(),
        },
        r is None ==> forall|k: int|
            0 <= k < pieces@.len() ==> (#[trigger] pieces@[k])@.len() > 0 && accepted@[k],
{
    let ghost pv = strings_view(pieces@);
    let mut k: usize = 0;
    while k < pieces.len()
        invariant
            k <= pieces.len(),
            accepted@.len() == pieces@.len(),
            pv == strings_view(pieces@),
            first_refused_from(pv, accepted@, 0) == first_refused_from(pv, accepted@, k as int),
            forall|j: int| 0 <= j < k ==> (#[trigger] pieces@[j])@.len() > 0 && accepted@[j],
        decreases pieces.len() - k,
    {
        assert(pv[k as int] == pieces@[k as int]@);
        if pieces[k].as_str().unicode_len() == 0 || !accepted[k] {
            return Some(k);
        }
        k += 1;
    }
    None
}

impl Selector {
    /// A selector has at least one segment, and each is a valid segment.
    pub open spec fn wf(&self) -> bool {
        &&& self@.len() > 0
        &&& forall|k: int| 0 <= k < self@.len() ==> is_segment(#[trigger] self@[k])
    }

    /// Cuts a path at its separators and checks every piece.
    pub fn parse(path: &str) -> (r: Result<Selector, Error>)
        ensures
            match r {
                Ok(sel) => parse_spec(path@) == Ok::<Seq<Seq<char>>, ErrorView>(sel@) && sel.wf()
                    && sel@.len() == separator_count(path@) + 1,
                Err(e) => parse_spec(path@) == Err::<Seq<Seq<char>>, ErrorView>(e@),
            },
    {
        if path.unicode_len() == 0 {
            return Err(Error::EmptyPath);
        }
        let pieces = split(path);
        let ghost pv = strings_view(pieces@);
        let mut accepted: Vec<bool> = Vec::new();
        let mut k: usize = 0;
        while k < pieces.len()
            invariant
                k <= pieces.len(),
                accepted@.len() == k,
                forall|j: int| 0 <= j < k ==> accepted@[j] == ident_accepted(pieces@[j]@),
            decreases pieces.len() - k,
        {
            accepted.push(parses_as_ident(pieces[k].as_str()));
            k += 1;
        }
        proof {
            assert(accepted@ =~= verdicts(pv));
            lemma_segment_count(path@, 0, 0);
        }
        match first_refused(&pieces, &accepted) {
            Some(k) => {
                assert(pv[k as int] == pieces@[k as int]@);
                Err(Error::InvalidSegment(pieces[k].clone()))
            },
            None => {
                assert forall|j: int| 0 <= j < pv.len() implies is_segment(#[trigger] pv[j]) by {
                    assert(pieces@[j]@.len() > 0 && accepted@[j]);
                }
                Ok(Selector { segments: pieces })
            },
        }
    }

    /// The segments, in order.
    pub(crate) fn segments(&self) -> (r: &Vec<String>)
        ensures
            strings_view(r@) == self@,
    {
        &self.segments
    }

    /// The number of segments.
    pub fn len(&self) -> (n: usize)
        ensures
            n == self@.len(),
    {
        self.segments.len()
    }

    /// The segment at position `index`.
    pub fn segment(&self, index: usize) -> (s: &str)
        requires
            index < self@.len(),
        ensures
            s@ == self@[index as int],
    {
        self.segments[index].as_str()
    }
}

/// From any point on, a path has one piece more than it has separators.
pub proof fn lemma_segment_count(s: Seq<char>, start: int, pos: int)
    requires
        0 <= pos,
    ensures
        split_from(s, start, pos).len() == separators_from(s, pos) + 1,
    decreases s.len() - pos,
{
    if pos >= s.len() {
    } else if is_separator_at(s, pos) {
        lemma_segment_count(s, pos + 2, pos + 2);
    } else {
        lemma_segment_count(s, start, pos + 1);
    }
}

} // verus!
