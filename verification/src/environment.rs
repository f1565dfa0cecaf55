//! The environments that a module populates, and the choice of one of them.

use crate::cli::{valid_env, validate_env};
use crate::order::{is_ordered_set_of, is_sorted_permutation, ordered_set, sort_strings};
use crate::text::{append_str, chars_of, join, join_strings, trim, trim_ws, utf8_lossy, utf8_lossy_text, views};
use vstd::prelude::*;

verus! {

/// What `serde_json::from_slice` reads from `bytes` as a list of strings:
/// the strings of a JSON array of strings, or else the text of its error.
pub uninterp spec fn json_string_list(bytes: Seq<u8>) -> Result<Seq<Seq<char>>, Seq<char>>;

/// Reads `bytes` as a JSON array of strings with `serde_json::from_slice`;
/// an error is rendered with its `Display` implementation.
#[verifier::external_body]
fn parse_string_list(bytes: &[u8]) -> (r: Result<Vec<String>, String>)
    ensures
        match json_string_list(bytes@) {
            Ok(names) => r matches Ok(v) && views(v@) == names,
            Err(text) => r matches Err(e) && e@ == text,
        },
{
    match serde_json::from_slice::<Vec<String>>(bytes) {
        Ok(names) => Ok(names),
        Err(error) => Err(error.to_string()),
    }
}

/// Why the populated environments could not be listed.
#[derive(Debug, Clone)]
pub enum PopulatedError {
    /// CUE failed, with its exit status and trimmed error output.
    Failed { status: String, stderr: String },
    /// CUE's output is not a JSON array of strings.
    InvalidData(String),
    /// CUE listed a name that is not an environment name.
    InvalidEnvironment(String),
}

impl PopulatedError {
    /// The text of the error.
    pub fn message(&self) -> (r: String)
        ensures
            r@ == match self {
                PopulatedError::Failed { status, stderr } => "Failed to discover populated environments ("@
                    + status@ + "): "@ + stderr@,
                PopulatedError::InvalidData(e) => "CUE returned invalid environment data: "@ + e@,
                PopulatedError::InvalidEnvironment(e) => "CUE returned invalid environment '"@ + e@
                    + "': "@ + crate::cli::ENV_PATTERN_MESSAGE@,
            },
    {
        match self {
            PopulatedError::Failed { status, stderr } => {
                let mut m = "Failed to discover populated environments (".to_owned();
                append_str(&mut m, status.as_str());
                append_str(&mut m, "): ");
                append_str(&mut m, stderr.as_str());
                m
            },
            PopulatedError::InvalidData(e) => {
                let mut m = "CUE returned invalid environment data: ".to_owned();
                append_str(&mut m, e.as_str());
                m
            },
            PopulatedError::InvalidEnvironment(e) => {
                let mut m = "CUE returned invalid environment '".to_owned();
                append_str(&mut m, e.as_str());
                append_str(&mut m, "': ");
                append_str(&mut m, crate::cli::ENV_PATTERN_MESSAGE);
                m
            },
        }
    }
}

/// The first name in `names` that is not an environment name.
pub open spec fn first_invalid(names: Seq<Seq<char>>) -> Option<Seq<char>>
    decreases names.len(),
{
    if names.len() == 0 {
        None
    } else if !valid_env(names[0]) {
        Some(names[0])
    } else {
        first_invalid(names.drop_first())
    }
}

/// The populated environments from the parsed output of the CUE query:
/// the ordered set of the names when every one is an environment name,
/// otherwise the first one that is not; a parse error is invalid data.
pub fn environments_from(parsed: Result<Vec<String>, String>) -> (r: Result<
    Vec<String>,
    PopulatedError,
>)
    ensures
        match parsed {
            Err(text) => r matches Err(PopulatedError::InvalidData(e)) && e@ == text@,
            Ok(names) => match first_invalid(views(names@)) {
                Some(bad) => r matches Err(PopulatedError::InvalidEnvironment(e)) && e@ == bad,
                None => r matches Ok(set) && is_ordered_set_of(views(set@), views(names@)),
            },
        },
{
    match parsed {
        Ok(names) => named_environments(names),
        Err(text) => Err(PopulatedError::InvalidData(text)),
    }
}

/// The ordered set of `names` when every one is an environment name,
/// otherwise the first one that is not.
fn named_environments(names: Vec<String>) -> (r: Result<Vec<String>, PopulatedError>)
    ensures
        match first_invalid(views(names@)) {
            Some(bad) => r matches Err(PopulatedError::InvalidEnvironment(e)) && e@ == bad,
            None => r matches Ok(set) && is_ordered_set_of(views(set@), views(names@)),
        },
{
    let ghost all = views(names@);
    let mut i: usize = 0;
    assert(all.skip(0) =~= all);
    while i < names.len()
        invariant
            i <= names.len(),
            all == views(names@),
            first_invalid(all) == first_invalid(all.skip(i as int)),
        decreases names.len() - i,
    {
        assert(all.skip(i as int)[0] == names@[i as int]@);
        if validate_env(names[i].as_str()).is_err() {
            return Err(PopulatedError::InvalidEnvironment(names[i].clone()));
        }
        assert(all.skip(i as int).drop_first() =~= all.skip(i + 1));
        i = i + 1;
    }
    Ok(ordered_set(names))
}

/// The populated environments from the output of the CUE query: the
/// ordered set of the listed names when the query succeeded and every name
/// is an environment name.
pub fn populated(success: bool, status: &str, stderr: &[u8], stdout: &[u8]) -> (r: Result<
    Vec<String>,
    PopulatedError,
>)
    ensures
        !success ==> (r matches Err(PopulatedError::Failed { status: s, stderr: e }) && s@ == status@
            && e@ == trim_ws(utf8_lossy_text(stderr@))),
        success ==> match json_string_list(stdout@) {
            Err(text) => r matches Err(PopulatedError::InvalidData(e)) && e@ == text,
            Ok(names) => match first_invalid(names) {
                Some(bad) => r matches Err(PopulatedError::InvalidEnvironment(e)) && e@ == bad,
                None => r matches Ok(set) && is_ordered_set_of(views(set@), names),
            },
        },
{
    if !success {
        let text = utf8_lossy(stderr);
        let trimmed = trim(chars_of(text.as_str()).as_slice());
        return Err(
            PopulatedError::Failed {
                status: status.to_owned(),
                stderr: crate::text::string_of(trimmed.as_slice()),
            },
        );
    }
    environments_from(parse_string_list(stdout))
}

/// Why no environment was chosen.
#[derive(Debug, Clone)]
pub enum SelectionError {
    /// There is no environment to choose from.
    NoEnvironments,
    /// Several environments exist and no prompt can be shown; the listing
    /// names them in order.
    Ambiguous(String),
    /// The prompt was dismissed.
    Cancelled,
    /// The prompt failed.
    Prompt(String),
}

impl SelectionError {
    /// The text of the error.
    pub fn message(&self) -> (r: String)
        ensures
            r@ == match self {
                SelectionError::NoEnvironments => "No populated environments exist in this module"@,
                SelectionError::Ambiguous(l) => "Multiple populated environments exist ("@ + l@
                    + "); select one explicitly with '-t :ENV'"@,
                SelectionError::Cancelled => "Environment selection cancelled"@,
                SelectionError::Prompt(m) => m@,
            },
    {
        match self {
            SelectionError::NoEnvironments => "No populated environments exist in this module".to_owned(),
            SelectionError::Ambiguous(l) => {
                let mut m = "Multiple populated environments exist (".to_owned();
                append_str(&mut m, l.as_str());
                append_str(&mut m, "); select one explicitly with '-t :ENV'");
                m
            },
            SelectionError::Cancelled => "Environment selection cancelled".to_owned(),
            SelectionError::Prompt(m) => m.clone(),
        }
    }
}

/// What the choice among `sorted` environments gives when the prompt,
/// shown for several environments on a terminal, returned `answer`.
pub open spec fn selection_outcome(
    sorted: Seq<Seq<char>>,
    interactive: bool,
    answer: Option<Result<Option<String>, SelectionError>>,
    r: Result<String, SelectionError>,
) -> bool {
    if sorted.len() == 0 {
        r matches Err(SelectionError::NoEnvironments)
    } else if sorted.len() == 1 {
        r matches Ok(e) && e@ == sorted[0]
    } else if !interactive {
        r matches Err(SelectionError::Ambiguous(l)) && l@ == join(sorted, ", "@)
    } else {
        match answer {
            Some(Ok(Some(chosen))) => r == Ok::<String, SelectionError>(chosen),
            Some(Ok(None)) => r matches Err(SelectionError::Cancelled),
            Some(Err(e)) => r == Err::<String, SelectionError>(e),
            None => false,
        }
    }
}

/// Chooses an environment: the only one when there is one, otherwise the
/// answer of `prompt`, which is shown the environments in order when the
/// session is interactive. The prompt is called only then, so it need only
/// accept being called then.
pub fn select_with<F>(environments: Vec<String>, interactive: bool, prompt: F) -> (r: Result<
    String,
    SelectionError,
>) where F: FnOnce(Vec<String>) -> Result<Option<String>, SelectionError>
    requires
        interactive && environments@.len() >= 2 ==> forall|v: Vec<String>| prompt.requires((v,)),
    ensures
        exists|sorted: Vec<String>, answer: Option<Result<Option<String>, SelectionError>>|
            {
                &&& is_sorted_permutation(views(sorted@), views(environments@))
                &&& (answer is Some <==> (interactive && environments@.len() >= 2))
                &&& (answer matches Some(a) ==> prompt.ensures((sorted,), a))
                &&& selection_outcome(views(sorted@), interactive, answer, r)
            },
{
    proof {
        broadcast use vstd::seq_lib::group_to_multiset_ensures;
    }
    let ghost count = environments@.len();
    assert(views(environments@).len() == count);
    let sorted = sort_strings(environments);
    assert(views(sorted@).to_multiset().len() == views(sorted@).len());
    assert(sorted@.len() == count);
    let ghost shown = sorted;
    if sorted.len() == 0 {
        let r = Err(SelectionError::NoEnvironments);
        assert(selection_outcome(views(shown@), interactive, None, r));
        return r;
    }
    if sorted.len() == 1 {
        let r = Ok(sorted[0].clone());
        assert(selection_outcome(views(shown@), interactive, None, r));
        return r;
    }
    if !interactive {
        let listing = join_strings(sorted.as_slice(), ", ");
        let r = Err(SelectionError::Ambiguous(listing));
        assert(selection_outcome(views(shown@), interactive, None, r));
        return r;
    }
    let answer = prompt(sorted);
    let r = match answer {
        Ok(Some(chosen)) => Ok(chosen),
        Ok(None) => Err(SelectionError::Cancelled),
        Err(e) => Err(e),
    };
    assert(selection_outcome(views(shown@), interactive, Some(answer), r));
    r
}

} // verus!
