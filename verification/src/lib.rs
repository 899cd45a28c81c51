//! Wikitext syntax trees: a position-annotated AST, a fixed pipeline of
//! verified structural rewrite passes over it, a read-only traversal, and
//! position-mapped, human-readable diagnostics.

pub mod ast;
pub mod default_transformations;
pub mod error;
pub mod transform_spec;
pub mod transformations;
pub mod traversion;
pub mod util;

use vstd::prelude::*;

use crate::ast::Element;
use crate::default_transformations::{
    collapse_consecutive_text, collapse_paragraphs, enumerate_anon_args,
    fold_headings_transformation, fold_lists_transformation, res_agrees,
    whitespace_paragraphs_to_empty, GeneralSettings,
};
use crate::error::{parse_error_from_spec, GrammarError, MWError, MWErrorView, ParseError};
use crate::transform_spec::pipeline_spec;
use crate::transformations::TResult;
use crate::util::byte_len;

verus! {

/// Runs the six structural rewrite passes in their fixed order, stopping at
/// the first error.
pub fn apply_transformations(root: Element, settings: &GeneralSettings) -> (r: TResult)
    ensures
        res_agrees(r, pipeline_spec(root@)),
{
    let root = fold_headings_transformation(root, settings)?;
    let root = fold_lists_transformation(root, settings)?;
    let root = whitespace_paragraphs_to_empty(root, settings)?;
    let root = collapse_paragraphs(root, settings)?;
    let root = collapse_consecutive_text(root, settings)?;
    let root = enumerate_anon_args(root, settings)?;
    Ok(root)
}

/// The pipeline as external consumers see it: takes the raw tree the parser
/// produced and returns the normalized tree, or the first pass error.
pub fn run_pipeline(tree: Element) -> (r: TResult)
    ensures
        res_agrees(r, pipeline_spec(tree@)),
{
    let settings = GeneralSettings {  };
    apply_transformations(tree, &settings)
}

/// The top-level entry point over what the external grammar produced from the
/// input document: a grammar failure becomes a parse error with source
/// context, and a parsed tree runs through the pipeline; either failure is
/// reported as the unified error type.
pub fn parse(input: &str, parsed: Result<Element, GrammarError>) -> (r: Result<Element, MWError>)
    requires
        parsed matches Err(e) ==> e.line >= 1,
        byte_len(input@) <= usize::MAX - 2,
    ensures
        match parsed {
            Err(e) => r matches Err(me) && me@ == MWErrorView::ParseError(
                parse_error_from_spec(e@, input@),
            ),
            Ok(tree) => match r {
                Ok(out) => pipeline_spec(tree@) == Ok::<_, crate::error::TransformationErrorView>(
                    out@,
                ),
                Err(me) => me@ matches MWErrorView::TransformationError(te) && pipeline_spec(
                    tree@,
                ) == Err::<crate::ast::ElementView, _>(te),
            },
        },
{
    match parsed {
        Err(e) => Err(MWError::ParseError(ParseError::from(&e, input))),
        Ok(tree) => match run_pipeline(tree) {
            Ok(out) => Ok(out),
            Err(te) => Err(MWError::TransformationError(te)),
        },
    }
}

} // verus!
