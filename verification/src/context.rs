use vstd::prelude::*;
use crate::diff::opt_chars;

verus! {

/// What the desk says of the Task on the tablet: its key, the run's name, and whether the
/// run has a git branch (which is what the verb needs).
#[derive(Debug, Clone, PartialEq, Eq)]
pub struct Context {
    pub task: String,
    pub run: String,
    pub git: bool,
}

/// A context as plain values.
pub struct ContextModel {
    pub task: Seq<char>,
    pub run: Seq<char>,
    pub git: bool,
}

impl View for Context {
    type V = ContextModel;

    open spec fn view(&self) -> ContextModel {
        ContextModel { task: self.task@, run: self.run@, git: self.git }
    }
}

/// The string that the JSON document `text` holds under the top-level key `key`, as
/// `serde_json` reads it: `None` when `text` is not JSON, is not an object, lacks the key,
/// or holds something other than a string there.
pub uninterp spec fn json_string_field(text: Seq<char>, key: Seq<char>) -> Option<Seq<char>>;

/// Calls `serde_json::from_str` into a `serde_json::Value` (falling back to `Value::Null`
/// when the text is not JSON), then `Value::get` with `key` and `Value::as_str`.
/// Claimed: the result is `json_string_field` of the text and the key; nothing more is said
/// of what that is for given values.
#[verifier::external_body]
fn string_field(text: &str, key: &str) -> (r: Option<String>)
    ensures
        opt_chars(r) == json_string_field(text@, key@),
{
    let value: serde_json::Value = serde_json::from_str(text).unwrap_or_default();
    value.get(key).and_then(serde_json::Value::as_str).map(str::to_string)
}

/// The context made of the desk's `task`, `run` and `branch` fields: a missing task is
/// empty, a missing run reads `no run`, and the verb goes with a branch.
pub open spec fn context_of(
    task: Option<Seq<char>>,
    run: Option<Seq<char>>,
    branch: Option<Seq<char>>,
) -> ContextModel {
    ContextModel {
        task: match task {
            Some(t) => t,
            None => Seq::empty(),
        },
        run: match run {
            Some(r) => r,
            None => "no run"@,
        },
        git: branch is Some,
    }
}

impl Context {
    /// The context from the desk's `task`, `run` and `branch` string fields.
    pub fn from_fields(task: Option<String>, run: Option<String>, branch: Option<String>) -> (c:
        Context)
        ensures
            c@ == context_of(opt_chars(task), opt_chars(run), opt_chars(branch)),
    {
        let task = match task {
            Some(t) => t,
            None => String::new(),
        };
        let run = match run {
            Some(r) => r,
            None => "no run".to_owned(),
        };
        let c = Context { task, run, git: branch.is_some() };
        c
    }

    /// Reads the context JSON that the desk hands the plugin; text that is not a JSON
    /// object reads as no task, no run and no branch.
    pub fn parse(context: &str) -> (c: Context)
        ensures
            c@ == context_of(
                json_string_field(context@, "task"@),
                json_string_field(context@, "run"@),
                json_string_field(context@, "branch"@),
            ),
    {
        let task = string_field(context, "task");
        let run = string_field(context, "run");
        let branch = string_field(context, "branch");
        Context::from_fields(task, run, branch)
    }
}

} // verus!
