//! The match extractor: which of the invocations that the grammar provider
//! found are layout invocations.

use vstd::prelude::*;
use vstd::string::*;
use crate::error::Error;
use crate::span::{
    first_capture, first_numbered, invocation_views, matches_seq, same_bytes, CaptureNumbers,
    Invocation, Match, SyntaxSpan,
};
use crate::text::bytes_of;

verus! {

/// The name at `id` in `text` starts with `prefix`: the span lies within the
/// text, and the bytes of the prefix are the first bytes of the span.
pub open spec fn has_prefix(text: Seq<char>, id: SyntaxSpan, prefix: Seq<char>) -> bool {
    &&& id.fits(text)
    &&& bytes_of(prefix).is_prefix_of(
        bytes_of(text).subrange(id.start_byte as int, id.end_byte as int),
    )
}

/// Whether the name at `id` in `text` starts with `prefix`.
pub fn is_recognized(text: &str, id: &SyntaxSpan, prefix: &str) -> (b: bool)
    ensures
        b == has_prefix(text@, *id, prefix@),
{
    let bytes = text.as_bytes();
    let wanted = prefix.as_bytes();
    if id.start_byte > id.end_byte || id.end_byte > bytes.len() {
        return false;
    }
    let ghost name = bytes@.subrange(id.start_byte as int, id.end_byte as int);
    if wanted.len() > id.end_byte - id.start_byte {
        return false;
    }
    let mut i: usize = 0;
    while i < wanted.len()
        invariant
            i <= wanted@.len() <= id.end_byte - id.start_byte,
            id.end_byte <= bytes@.len(),
            bytes@ == bytes_of(text@),
            wanted@ == bytes_of(prefix@),
            name == bytes@.subrange(id.start_byte as int, id.end_byte as int),
            forall|k: int| 0 <= k < i ==> wanted@[k] == name[k],
        decreases wanted@.len() - i,
    {
        if wanted[i] != bytes[id.start_byte + i] {
            return false;
        }
        i += 1;
    }
    true
}

/// Those of `candidates` whose name starts with `prefix`, in their order.
pub open spec fn recognized(
    text: Seq<char>,
    candidates: Seq<(Match, Seq<SyntaxSpan>)>,
    prefix: Seq<char>,
) -> Seq<(Match, Seq<SyntaxSpan>)>
    decreases candidates.len(),
{
    if candidates.len() == 0 {
        Seq::empty()
    } else {
        let before = recognized(text, candidates.drop_last(), prefix);
        if has_prefix(text, candidates.last().0.id, prefix) {
            before.push(candidates.last())
        } else {
            before
        }
    }
}

/// Keeps those of `candidates` whose name starts with `prefix`, in their
/// order. The others are dropped. Finding none is reported; whether that is
/// a failure is for the caller to say.
pub fn recognize(text: &str, candidates: Vec<Invocation>, prefix: &str) -> (r: Result<
    Vec<Invocation>,
    Error,
>)
    ensures
        r is Ok <==> recognized(text@, invocation_views(candidates@), prefix@).len() > 0,
        r matches Ok(found) ==> invocation_views(found@) == recognized(
            text@,
            invocation_views(candidates@),
            prefix@,
        ),
        r matches Err(e) ==> e == Error::NoMatch,
{
    let ghost all = invocation_views(candidates@);
    let mut found: Vec<Invocation> = Vec::new();
    for candidate in it: candidates
        invariant
            it.seq() == candidates@,
            all == invocation_views(candidates@),
            invocation_views(found@) == recognized(text@, all.take(it.index() as int), prefix@),
    {
        let ghost i = it.index() as int;
        assert(all.take(i + 1).drop_last() =~= all.take(i));
        if is_recognized(text, &candidate.at.id, prefix) {
            found.push(candidate);
        }
    }
    assert(all.take(candidates@.len() as int) =~= all);
    if found.len() == 0 {
        Err(Error::NoMatch)
    } else {
        Ok(found)
    }
}

/// The spans of `invocations`, without their arguments.
pub open spec fn spans_of(invocations: Seq<(Match, Seq<SyntaxSpan>)>) -> Seq<Match> {
    Seq::new(invocations.len(), |i: int| invocations[i].0)
}

/// The spans of `invocations`, without their arguments.
pub fn matches_of(invocations: &Vec<Invocation>) -> (r: Vec<Match>)
    ensures
        r@ == spans_of(invocation_views(invocations@)),
{
    let mut out: Vec<Match> = Vec::new();
    let mut i: usize = 0;
    while i < invocations.len()
        invariant
            i <= invocations@.len(),
            out@.len() == i,
            forall|k: int| 0 <= k < i ==> out@[k] == invocations@[k].at,
        decreases invocations@.len() - i,
    {
        out.push(invocations[i].at);
        i += 1;
    }
    out
}

/// The argument that the match `m` of the argument pattern shows for the
/// argument list at `args`: the span that it captured as the argument,
/// where the span that it captured as the list covers the bytes of `args`.
pub open spec fn key_shown(m: Seq<(u32, SyntaxSpan)>, n: CaptureNumbers, args: SyntaxSpan) -> Option<
    SyntaxSpan,
> {
    match first_numbered(m, n.list) {
        Some(list) => if same_bytes(list, args) {
            first_numbered(m, n.key)
        } else {
            None
        },
        None => None,
    }
}

/// The arguments of the argument list at `args`: those that the matches
/// `children` of the argument pattern show for it, in their order.
pub open spec fn keys_of(
    children: Seq<Seq<(u32, SyntaxSpan)>>,
    n: CaptureNumbers,
    args: SyntaxSpan,
) -> Seq<SyntaxSpan>
    decreases children.len(),
{
    if children.len() == 0 {
        Seq::empty()
    } else {
        let before = keys_of(children.drop_last(), n, args);
        match key_shown(children.last(), n, args) {
            Some(key) => before.push(key),
            None => before,
        }
    }
}

/// The arguments of the argument list at `args`, in the order in which
/// the matches `children` of the argument pattern show them.
pub fn collect_keys(children: &Vec<Vec<(u32, SyntaxSpan)>>, n: &CaptureNumbers, args: &SyntaxSpan) -> (keys:
    Vec<SyntaxSpan>)
    ensures
        keys@ == keys_of(matches_seq(*children), *n, *args),
{
    let ghost all = matches_seq(*children);
    let mut keys: Vec<SyntaxSpan> = Vec::new();
    let mut k: usize = 0;
    while k < children.len()
        invariant
            k <= children@.len(),
            all == matches_seq(*children),
            keys@ == keys_of(all.take(k as int), *n, *args),
        decreases children@.len() - k,
    {
        assert(all.take(k + 1).drop_last() =~= all.take(k as int));
        match first_capture(&children[k], n.list) {
            Some(list) => {
                if list.start_byte == args.start_byte && list.end_byte == args.end_byte {
                    match first_capture(&children[k], n.key) {
                        Some(key) => {
                            keys.push(key);
                        },
                        None => {},
                    }
                }
            },
            None => {},
        }
        k += 1;
    }
    assert(all.take(k as int) =~= all);
    keys
}

/// The invocation that the match `m` of the invocation pattern shows: the
/// first spans that it captured as the name, the argument list and the whole,
/// with the arguments that `children` show for the list; none, where it
/// lacks one of the three.
pub open spec fn invocation_shown(
    m: Seq<(u32, SyntaxSpan)>,
    children: Seq<Seq<(u32, SyntaxSpan)>>,
    n: CaptureNumbers,
) -> Option<(Match, Seq<SyntaxSpan>)> {
    let id = first_numbered(m, n.id);
    let args = first_numbered(m, n.args);
    let call = first_numbered(m, n.call);
    if id is Some && args is Some && call is Some {
        Some((Match { id: id->0, args: args->0, call: call->0 }, keys_of(children, n, args->0)))
    } else {
        None
    }
}

/// What the matches `calls` of the invocation pattern and `children` of the
/// argument pattern give: an invocation for each of `calls`, in their order;
/// none at all where one of them lacks a capture.
pub open spec fn invocations_result(
    calls: Seq<Seq<(u32, SyntaxSpan)>>,
    children: Seq<Seq<(u32, SyntaxSpan)>>,
    n: CaptureNumbers,
) -> Result<Seq<(Match, Seq<SyntaxSpan>)>, Error> {
    if forall|k: int|
        0 <= k < calls.len() ==> invocation_shown(#[trigger] calls[k], children, n) is Some {
        Ok(Seq::new(calls.len(), |k: int| invocation_shown(calls[k], children, n)->0))
    } else {
        Err(Error::Grammar)
    }
}

/// Makes invocations of what the provider shows: one of each match of the
/// invocation pattern, in the order of the matches, with the arguments that
/// the matches of the argument pattern show for its argument list. A match
/// that lacks the name, the argument list or the whole is a failure of the
/// provider.
pub fn invocations_found(
    calls: &Vec<Vec<(u32, SyntaxSpan)>>,
    children: &Vec<Vec<(u32, SyntaxSpan)>>,
    n: &CaptureNumbers,
) -> (r: Result<Vec<Invocation>, Error>)
    ensures
        r matches Ok(found) ==> invocations_result(matches_seq(*calls), matches_seq(*children), *n)
            == Ok::<Seq<(Match, Seq<SyntaxSpan>)>, Error>(invocation_views(found@)),
        r matches Err(e) ==> invocations_result(matches_seq(*calls), matches_seq(*children), *n)
            == Err::<Seq<(Match, Seq<SyntaxSpan>)>, Error>(e),
{
    let ghost all = matches_seq(*calls);
    let ghost kids = matches_seq(*children);
    let mut found: Vec<Invocation> = Vec::new();
    let mut k: usize = 0;
    while k < calls.len()
        invariant
            k <= calls@.len(),
            all == matches_seq(*calls),
            kids == matches_seq(*children),
            found@.len() == k,
            forall|j: int|
                0 <= j < k ==> invocation_shown(#[trigger] all[j], kids, *n) == Some(found@[j]@),
        decreases calls@.len() - k,
    {
        let id = first_capture(&calls[k], n.id);
        let args = first_capture(&calls[k], n.args);
        let call = first_capture(&calls[k], n.call);
        match (id, args, call) {
            (Some(id), Some(args), Some(call)) => {
                let keys = collect_keys(children, n, &args);
                found.push(Invocation { at: Match { id, args, call }, keys });
            },
            _ => {
                assert(invocation_shown(all[k as int], kids, *n) is None);
                return Err(Error::Grammar);
            },
        }
        k += 1;
    }
    assert(invocation_views(found@) =~= Seq::new(
        all.len(),
        |j: int| invocation_shown(all[j], kids, *n)->0,
    ));
    Ok(found)
}

} // verus!
