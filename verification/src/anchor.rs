//! The anchor: the one top-level declaration to which a run may be confined.

use vstd::prelude::*;
use vstd::string::*;
use crate::error::Error;
use crate::extractor::{has_prefix, is_recognized};
use crate::span::{
    first_capture, first_numbered, invocation_views, matches_seq, same_bytes, CaptureNumbers,
    Invocation, Match, SyntaxSpan,
};
use crate::text::{byte_len, bytes_of};

verus! {

/// A top-level declaration: its whole extent, and the name that it declares.
#[derive(Debug, Clone, Copy, PartialEq, Eq)]
pub struct Declaration {
    /// The whole declaration.
    pub span: SyntaxSpan,
    /// The innermost identifier of its declarator.
    pub name: SyntaxSpan,
}

/// Declaration `d` of `text` declares `name`: the bytes of its name are
/// those of `name`.
pub open spec fn declares(text: Seq<char>, d: Declaration, name: Seq<char>) -> bool {
    &&& has_prefix(text, d.name, name)
    &&& d.name.end_byte - d.name.start_byte == bytes_of(name).len()
}

/// Whether declaration `d` of `text` declares `name`.
pub fn is_declaration_of(text: &str, d: &Declaration, name: &str) -> (b: bool)
    ensures
        b == declares(text@, *d, name@),
{
    is_recognized(text, &d.name, name) && d.name.end_byte - d.name.start_byte == byte_len(name)
}

/// Those of `declarations` that declare `name`, in their order.
pub open spec fn declarations_of(
    text: Seq<char>,
    declarations: Seq<Declaration>,
    name: Seq<char>,
) -> Seq<Declaration>
    decreases declarations.len(),
{
    if declarations.len() == 0 {
        Seq::empty()
    } else {
        let before = declarations_of(text, declarations.drop_last(), name);
        if declares(text, declarations.last(), name) {
            before.push(declarations.last())
        } else {
            before
        }
    }
}

/// The extent of the one declaration among `declarations` that declares
/// `name`. Where none does, or more than one, there is no anchor: the choice
/// is never made for the caller.
pub fn locate_anchor(text: &str, declarations: &[Declaration], name: &str) -> (r: Result<
    SyntaxSpan,
    Error,
>)
    ensures
        r is Ok <==> declarations_of(text@, declarations@, name@).len() == 1,
        r matches Ok(span) ==> span == declarations_of(text@, declarations@, name@)[0].span,
        r matches Err(e) ==> e == Error::AnchorNotFound,
{
    let ghost all = declarations@;
    let mut found: Option<SyntaxSpan> = None;
    let mut i: usize = 0;
    while i < declarations.len()
        invariant
            i <= declarations@.len(),
            all == declarations@,
            declarations_of(text@, all.take(i as int), name@).len() <= 1,
            found is Some <==> declarations_of(text@, all.take(i as int), name@).len() == 1,
            found matches Some(span) ==> span == declarations_of(
                text@,
                all.take(i as int),
                name@,
            )[0].span,
        decreases declarations@.len() - i,
    {
        assert(all.take(i + 1).drop_last() =~= all.take(i as int));
        if is_declaration_of(text, &declarations[i], name) {
            if found.is_some() {
                proof {
                    lemma_declarations_grow(text@, all, name@, i + 1);
                }
                return Err(Error::AnchorNotFound);
            }
            found = Some(declarations[i].span);
        }
        i += 1;
    }
    assert(all.take(i as int) =~= all);
    match found {
        Some(span) => Ok(span),
        None => Err(Error::AnchorNotFound),
    }
}

/// Among more declarations, no fewer declare a name.
proof fn lemma_declarations_grow(
    text: Seq<char>,
    declarations: Seq<Declaration>,
    name: Seq<char>,
    k: int,
)
    requires
        0 <= k <= declarations.len(),
    ensures
        declarations_of(text, declarations.take(k), name).len() <= declarations_of(
            text,
            declarations,
            name,
        ).len(),
    decreases declarations.len(),
{
    if k == declarations.len() {
        assert(declarations.take(k) =~= declarations);
    } else {
        lemma_declarations_grow(text, declarations.drop_last(), name, k);
        assert(declarations.drop_last().take(k) =~= declarations.take(k));
    }
}

/// Invocation `m` lies within `region`.
pub open spec fn inside(region: SyntaxSpan, m: Match) -> bool {
    region.start_byte <= m.call.start_byte && m.call.end_byte <= region.end_byte
}

/// Those of `invocations` that lie within `region`, in their order.
pub open spec fn confined(invocations: Seq<(Match, Seq<SyntaxSpan>)>, region: SyntaxSpan) -> Seq<
    (Match, Seq<SyntaxSpan>),
>
    decreases invocations.len(),
{
    if invocations.len() == 0 {
        Seq::empty()
    } else {
        let before = confined(invocations.drop_last(), region);
        if inside(region, invocations.last().0) {
            before.push(invocations.last())
        } else {
            before
        }
    }
}

/// Those of `invocations` that a run confined to `region` deals with: all
/// of them where there is no region.
pub open spec fn in_scope(
    invocations: Seq<(Match, Seq<SyntaxSpan>)>,
    region: Option<SyntaxSpan>,
) -> Seq<(Match, Seq<SyntaxSpan>)> {
    match region {
        Some(region) => confined(invocations, region),
        None => invocations,
    }
}

/// Keeps those of `invocations` that lie within `region`, in their order.
pub fn confine(invocations: Vec<Invocation>, region: &SyntaxSpan) -> (r: Vec<Invocation>)
    ensures
        invocation_views(r@) == confined(invocation_views(invocations@), *region),
{
    let ghost all = invocation_views(invocations@);
    let mut kept: Vec<Invocation> = Vec::new();
    for invocation in it: invocations
        invariant
            it.seq() == invocations@,
            all == invocation_views(invocations@),
            invocation_views(kept@) == confined(all.take(it.index() as int), *region),
    {
        let ghost i = it.index() as int;
        assert(all.take(i + 1).drop_last() =~= all.take(i));
        if region.start_byte <= invocation.at.call.start_byte && invocation.at.call.end_byte
            <= region.end_byte {
            kept.push(invocation);
        }
    }
    assert(all.take(invocations@.len() as int) =~= all);
    kept
}

/// Those of the matches `shown` that are declarations, in their order. A
/// match shows the span of the node that it captured, and the span of the
/// innermost declarator below that node, where there is one.
pub open spec fn declared(shown: Seq<Option<(SyntaxSpan, Option<SyntaxSpan>)>>) -> Seq<
    Declaration,
>
    decreases shown.len(),
{
    if shown.len() == 0 {
        Seq::empty()
    } else {
        let before = declared(shown.drop_last());
        match shown.last() {
            Some((span, Some(name))) => before.push(Declaration { span, name }),
            _ => before,
        }
    }
}

/// What the matches `shown` give: the declarations among them; none at all
/// where a match lacks its capture.
pub open spec fn declarations_result(shown: Seq<Option<(SyntaxSpan, Option<SyntaxSpan>)>>) -> Result<
    Seq<Declaration>,
    Error,
> {
    if forall|k: int| 0 <= k < shown.len() ==> (#[trigger] shown[k]) is Some {
        Ok(declared(shown))
    } else {
        Err(Error::Grammar)
    }
}

/// Makes declarations of what the matches of the declaration pattern show:
/// one of each match below which a declarator was found, in the order of the
/// matches. A match without its capture is a failure of the provider.
pub fn declarations_shown(shown: &Vec<Option<(SyntaxSpan, Option<SyntaxSpan>)>>) -> (r: Result<
    Vec<Declaration>,
    Error,
>)
    ensures
        r matches Ok(found) ==> declarations_result(shown@) == Ok::<Seq<Declaration>, Error>(
            found@,
        ),
        r matches Err(e) ==> declarations_result(shown@) == Err::<Seq<Declaration>, Error>(e),
{
    let mut found: Vec<Declaration> = Vec::new();
    let mut k: usize = 0;
    while k < shown.len()
        invariant
            k <= shown@.len(),
            forall|j: int| 0 <= j < k ==> (#[trigger] shown@[j]) is Some,
            found@ == declared(shown@.take(k as int)),
        decreases shown@.len() - k,
    {
        assert(shown@.take(k + 1).drop_last() =~= shown@.take(k as int));
        match shown[k] {
            Some((span, Some(name))) => {
                found.push(Declaration { span, name });
            },
            Some((_, None)) => {},
            None => {
                return Err(Error::Grammar);
            },
        }
        k += 1;
    }
    assert(shown@.take(k as int) =~= shown@);
    Ok(found)
}

/// The declarator that the match `m` of the declarator pattern shows for
/// the node at `of`: the span that it captured as the declarator, where the
/// span that it captured as the holder covers the bytes of `of`.
pub open spec fn link_shown(m: Seq<(u32, SyntaxSpan)>, n: CaptureNumbers, of: SyntaxSpan) -> Option<
    SyntaxSpan,
> {
    match first_numbered(m, n.outer) {
        Some(outer) => if same_bytes(outer, of) {
            first_numbered(m, n.inner)
        } else {
            None
        },
        None => None,
    }
}

/// The first declarator that the matches `links` from the `i`th on show for
/// the node at `of`.
pub open spec fn declarator_from(
    links: Seq<Seq<(u32, SyntaxSpan)>>,
    n: CaptureNumbers,
    of: SyntaxSpan,
    i: int,
) -> Option<SyntaxSpan>
    decreases links.len() - i,
{
    if i < 0 || i >= links.len() {
        None
    } else {
        match link_shown(links[i], n, of) {
            Some(inner) => Some(inner),
            None => declarator_from(links, n, of, i + 1),
        }
    }
}

/// The declarator of the node at `of`: the first that the matches `links`
/// of the declarator pattern show for it.
pub open spec fn declarator_of(links: Seq<Seq<(u32, SyntaxSpan)>>, n: CaptureNumbers, of: SyntaxSpan) -> Option<
    SyntaxSpan,
> {
    declarator_from(links, n, of, 0)
}

/// The innermost declarator from the declarator at `current` on: the one
/// reached by going from declarator to declarator for as long as there is
/// one; none, where that takes more than `steps` steps.
pub open spec fn innermost_from(
    links: Seq<Seq<(u32, SyntaxSpan)>>,
    n: CaptureNumbers,
    current: SyntaxSpan,
    steps: nat,
) -> Option<SyntaxSpan>
    decreases steps,
{
    match declarator_of(links, n, current) {
        None => Some(current),
        Some(inner) => if steps == 0 {
            None
        } else {
            innermost_from(links, n, inner, (steps - 1) as nat)
        },
    }
}

/// The name that the declaration at `declaration` declares: its innermost
/// declarator. A chain of declarators has no more members than there are
/// matches, so it is followed for no more steps than that.
pub open spec fn name_of(
    links: Seq<Seq<(u32, SyntaxSpan)>>,
    n: CaptureNumbers,
    declaration: SyntaxSpan,
) -> Option<SyntaxSpan> {
    match declarator_of(links, n, declaration) {
        None => None,
        Some(first) => innermost_from(links, n, first, links.len()),
    }
}

/// The declarator of the node at `of`: the first that the matches `links`
/// of the declarator pattern show for it.
pub fn find_declarator(links: &Vec<Vec<(u32, SyntaxSpan)>>, n: &CaptureNumbers, of: &SyntaxSpan) -> (r:
    Option<SyntaxSpan>)
    ensures
        r == declarator_of(matches_seq(*links), *n, *of),
{
    let ghost all = matches_seq(*links);
    let mut i: usize = 0;
    while i < links.len()
        invariant
            i <= links@.len(),
            all == matches_seq(*links),
            declarator_from(all, *n, *of, i as int) == declarator_of(all, *n, *of),
        decreases links@.len() - i,
    {
        match first_capture(&links[i], n.outer) {
            Some(outer) => {
                if outer.start_byte == of.start_byte && outer.end_byte == of.end_byte {
                    match first_capture(&links[i], n.inner) {
                        Some(inner) => {
                            return Some(inner);
                        },
                        None => {},
                    }
                }
            },
            None => {},
        }
        i += 1;
    }
    None
}

/// The innermost declarator of the declaration at `declaration`, as the
/// matches `links` of the declarator pattern show it.
pub fn innermost_declarator(
    links: &Vec<Vec<(u32, SyntaxSpan)>>,
    n: &CaptureNumbers,
    declaration: &SyntaxSpan,
) -> (r: Option<SyntaxSpan>)
    ensures
        r == name_of(matches_seq(*links), *n, *declaration),
{
    let ghost all = matches_seq(*links);
    let first = match find_declarator(links, n, declaration) {
        Some(first) => first,
        None => {
            return None;
        },
    };
    let mut current = first;
    let mut left: usize = links.len();
    loop
        invariant
            all == matches_seq(*links),
            innermost_from(all, *n, current, left as nat) == name_of(all, *n, *declaration),
        decreases left,
    {
        match find_declarator(links, n, &current) {
            None => {
                return Some(current);
            },
            Some(inner) => {
                if left == 0 {
                    return None;
                }
                current = inner;
                left -= 1;
            },
        }
    }
}

/// What the match `m` of the declaration pattern shows: the span that it
/// captured, and the name that the declaration there declares; nothing,
/// where it lacks the capture.
pub open spec fn declaration_shown(
    m: Seq<(u32, SyntaxSpan)>,
    links: Seq<Seq<(u32, SyntaxSpan)>>,
    n: CaptureNumbers,
) -> Option<(SyntaxSpan, Option<SyntaxSpan>)> {
    match first_numbered(m, n.decl) {
        Some(span) => Some((span, name_of(links, n, span))),
        None => None,
    }
}

/// What the matches `found` of the declaration pattern and `links` of the
/// declarator pattern give: the declarations that have a declarator, in
/// their order, each with its name; none at all where a match lacks its
/// capture.
pub open spec fn declarations_found_result(
    found: Seq<Seq<(u32, SyntaxSpan)>>,
    links: Seq<Seq<(u32, SyntaxSpan)>>,
    n: CaptureNumbers,
) -> Result<Seq<Declaration>, Error> {
    declarations_result(Seq::new(found.len(), |k: int| declaration_shown(found[k], links, n)))
}

/// Makes declarations of what the provider shows: one of each match of the
/// declaration pattern that has a declarator, in the order of the matches.
pub fn declarations_found(
    found: &Vec<Vec<(u32, SyntaxSpan)>>,
    links: &Vec<Vec<(u32, SyntaxSpan)>>,
    n: &CaptureNumbers,
) -> (r: Result<Vec<Declaration>, Error>)
    ensures
        r matches Ok(declarations) ==> declarations_found_result(
            matches_seq(*found),
            matches_seq(*links),
            *n,
        ) == Ok::<Seq<Declaration>, Error>(declarations@),
        r matches Err(e) ==> declarations_found_result(
            matches_seq(*found),
            matches_seq(*links),
            *n,
        ) == Err::<Seq<Declaration>, Error>(e),
{
    let ghost all = matches_seq(*found);
    let ghost chains = matches_seq(*links);
    let mut shown: Vec<Option<(SyntaxSpan, Option<SyntaxSpan>)>> = Vec::new();
    let mut k: usize = 0;
    while k < found.len()
        invariant
            k <= found@.len(),
            all == matches_seq(*found),
            chains == matches_seq(*links),
            shown@.len() == k,
            forall|j: int| 0 <= j < k ==> shown@[j] == declaration_shown(all[j], chains, *n),
        decreases found@.len() - k,
    {
        let one = match first_capture(&found[k], n.decl) {
            Some(span) => Some((span, innermost_declarator(links, n, &span))),
            None => None,
        };
        shown.push(one);
        k += 1;
    }
    assert(shown@ =~= Seq::new(all.len(), |j: int| declaration_shown(all[j], chains, *n)));
    declarations_shown(&shown)
}

} // verus!
