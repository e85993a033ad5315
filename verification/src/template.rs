//! Filling in the placeholders of a template.

use vstd::prelude::*;
use crate::parts::{includes_without_end, may_not_end};
use crate::search::{has_part, occurs_at};
use crate::tags::{lemma_no_tags, twice};
use crate::text::result_texts;

verus! {

#[verifier::external_type_specification]
#[verifier::external_body]
pub struct ExValue(serde_json::Value);

/// The JSON text of a value.
pub uninterp spec fn json_text(values: serde_json::Value) -> Seq<char>;

/// The text that the Handlebars engine makes of a template and of values in JSON, unless it refuses
/// the template.
pub uninterp spec fn handlebars_text(template: Seq<char>, values: Seq<char>) -> Option<Seq<char>>;

/// Whether the text holds the mark with which a placeholder begins.
pub open spec fn has_placeholder(template: Seq<char>) -> bool {
    has_part(template, "{{"@)
}

// The engine

/// Whether the result is this text.
pub open spec fn is_text(res: Result<String, String>, text: Seq<char>) -> bool {
    res matches Ok(value) && value@ == text
}

/// `serde_json::to_string`: the JSON text of the value, or the empty text where there is none.
#[verifier::external_body]
fn value_text(values: &serde_json::Value) -> (text: String)
    ensures
        text@ == json_text(*values),
{
    serde_json::to_string(values).unwrap_or_default()
}

/// `handlebars::Handlebars::render_template` with a fresh registry: whether a text comes out, and
/// which, depends on the template and the values alone, and a template without `{{` comes out as it
/// went in. Of the words of a refusal nothing is said: where several parts of a template are at
/// fault, the order of a hash map decides which of them is named. A part that includes itself, or
/// another that leads back to it, exhausts the stack; templates whose parts may include each other
/// without end are therefore left out. The stack is assumed to be deep enough: for blocks inside
/// blocks, of which each takes a call, and for a chain of `else if`, which takes one for each of
/// its clauses. Where little of it is left, the parser refuses a template that it would else read.
#[verifier::external_body]
fn render_handlebars(template: &str, values: &serde_json::Value) -> (res: Result<String, String>)
    requires
        !may_not_end(template@),
    ensures
        match (handlebars_text(template@, json_text(*values)), res) {
            (Some(text), Ok(out)) => out@ == text,
            (None, Err(_)) => true,
            _ => false,
        },
        !has_placeholder(template@) ==> is_text(res, template@),
{
    handlebars::Handlebars::new().render_template(template, values).map_err(|e| e.to_string())
}

/// Why a template is refused whose parts may include each other without end.
pub open spec fn endless_parts() -> Seq<char> {
    "parts may include each other without end"@
}

/// Whether the answer is what filling the values into the template can come to. A template without
/// placeholders comes out as it is.
pub open spec fn engine_gives(
    template: Seq<char>,
    values: Seq<char>,
    answer: Result<Seq<char>, Seq<char>>,
) -> bool {
    &&& if may_not_end(template) {
        answer == Err::<Seq<char>, Seq<char>>(endless_parts())
    } else {
        match handlebars_text(template, values) {
            Some(text) => answer == Ok::<Seq<char>, Seq<char>>(text),
            None => answer is Err,
        }
    }
    &&& !has_placeholder(template) ==> answer == Ok::<Seq<char>, Seq<char>>(template)
}

/// Fills the values into a template.
pub fn run_engine(template: &str, values: &serde_json::Value) -> (res: Result<String, String>)
    ensures
        engine_gives(template@, json_text(*values), result_texts(res)),
{
    if includes_without_end(template) {
        proof {
            if !has_placeholder(template@) {
                lemma_plain_ends(template@);
            }
        }
        return Err("parts may include each other without end".to_owned());
    }
    render_handlebars(template, values)
}

/// A template without placeholders has no parts that include each other.
pub proof fn lemma_plain_ends(template: Seq<char>)
    requires
        !has_placeholder(template),
    ensures
        !may_not_end(template),
{
    reveal_strlit("{{");
    assert forall|k: int| !twice(template, k, '{') by {
        if twice(template, k, '{') {
            assert(template.subrange(k, k + 2) =~= "{{"@);
            assert(occurs_at(template, "{{"@, k));
        }
    }
    lemma_no_tags(template, 0);
}

/// The text under which a document made from these values is found if nothing better is known.
pub fn values_to_index_text(values: &serde_json::Value) -> (text: String)
    ensures
        text@ == json_text(*values),
{
    value_text(values)
}

// What holds of all of this

/// The answer is what the template engine makes of the whole template. A template without two
/// opening braces in a row comes out as it is.
pub proof fn lemma_engine_answers(
    template: Seq<char>,
    values: Seq<char>,
    answer: Result<Seq<char>, Seq<char>>,
)
    requires
        engine_gives(template, values, answer),
    ensures
        !may_not_end(template) ==> match handlebars_text(template, values) {
            Some(text) => answer == Ok::<Seq<char>, Seq<char>>(text),
            None => answer is Err,
        },
        may_not_end(template) ==> answer == Err::<Seq<char>, Seq<char>>(
            "parts may include each other without end"@,
        ),
        (forall|i: int, j: int|
            0 <= i && j == i + 1 && j < template.len() ==> !(#[trigger] template[i] == '{'
                && #[trigger] template[j] == '{')) ==> answer == Ok::<Seq<char>, Seq<char>>(
            template,
        ),
{
    reveal_strlit("{{");
    if has_placeholder(template) {
        let i = choose|i: int| occurs_at(template, "{{"@, i);
        assert(template.subrange(i, i + 2)[0] == '{' && template.subrange(i, i + 2)[1] == '{');
        assert(template[i] == '{' && template[i + 1] == '{');
    }
}

} // verus!
