//! What becomes of the document between the two passes.
//!
//! The reformatter is an outside program. Running it is not this library's
//! work; deciding what its outcome means is.

use vstd::prelude::*;
use vstd::string::*;
use crate::config::{Config, Reformatter};
use crate::error::Error;
use crate::span::SyntaxSpan;
use crate::text::{replace, replaced, slice, span_error};

verus! {

/// How the attempt to reformat a document ended.
#[derive(Debug, PartialEq, Eq)]
pub enum Reformatted {
    /// The reformatter is switched off and was not run.
    Skipped,
    /// The program could not be found.
    Missing,
    /// The program ran and reported failure, with its exit code if it had one.
    Failed(Option<i32>),
    /// The program ran and wrote this text.
    Done(String),
}

/// Whether the configuration asks for the reformatter to be run.
pub fn wants_reformatter(cfg: &Config) -> (b: bool)
    ensures
        b == (cfg.reformatter == Reformatter::Enabled),
{
    match cfg.reformatter {
        Reformatter::Enabled => true,
        Reformatter::Disabled => false,
    }
}

/// The part of `text` that the reformatter is to work on: the region, or
/// all of it where there is none.
pub open spec fn reformatter_input(text: Seq<char>, region: Option<SyntaxSpan>) -> Seq<char> {
    match region {
        Some(region) => region.text_in(text),
        None => text,
    }
}

/// The part of `text` that is handed to the reformatter.
pub fn text_to_reformat<'a>(text: &'a str, region: &Option<SyntaxSpan>) -> (r: Result<
    &'a str,
    Error,
>)
    ensures
        r is Ok <==> (region matches Some(span) ==> span.is_text(text@)),
        r matches Ok(part) ==> part@ == reformatter_input(text@, *region),
        r matches Err(e) ==> region matches Some(span) && e == span_error(
            text@,
            span.start_byte as int,
            span.end_byte as int,
        ),
{
    match region {
        Some(span) => slice(text, span.start_byte, span.end_byte),
        None => Ok(text),
    }
}

/// The document that the second pass works on: the document of the first
/// with what the reformatter wrote in place of what it was given; the
/// document as it was, where the reformatter was not run or could not be
/// found; none where it ran and failed, or where the region is no text range.
pub open spec fn reformat_result(text: Seq<char>, region: Option<SyntaxSpan>, how: Reformatted) -> Result<
    Seq<char>,
    Error,
> {
    match how {
        Reformatted::Skipped => Ok(text),
        Reformatted::Missing => Ok(text),
        Reformatted::Failed(code) => Err(Error::ReformatterFailed(code)),
        Reformatted::Done(out) => match region {
            None => Ok(out@),
            Some(span) => if span.is_text(text) {
                Ok(replaced(text, span.start_byte as int, span.end_byte as int, out@))
            } else {
                Err(span_error(text, span.start_byte as int, span.end_byte as int))
            },
        },
    }
}

/// The document that the second pass works on, given the document of the
/// first, the region that was handed to the reformatter, and how that ended.
pub fn reformatted_text(text: &str, region: &Option<SyntaxSpan>, how: Reformatted) -> (r: Result<
    String,
    Error,
>)
    ensures
        r matches Ok(out) ==> reformat_result(text@, *region, how) == Ok::<Seq<char>, Error>(out@),
        r matches Err(e) ==> reformat_result(text@, *region, how) == Err::<Seq<char>, Error>(e),
{
    match how {
        Reformatted::Skipped => Ok(text.to_owned()),
        Reformatted::Missing => Ok(text.to_owned()),
        Reformatted::Failed(code) => Err(Error::ReformatterFailed(code)),
        Reformatted::Done(out) => match region {
            None => Ok(out),
            Some(span) => replace(text, span.start_byte, span.end_byte, out.as_str()),
        },
    }
}

} // verus!
