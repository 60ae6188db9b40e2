//! Where results are written: file names built from the run's settings.

use vstd::prelude::*;
use crate::text::{concat_str, decimal, u64_to_decimal};

verus! {

/// Runs of characters other than word characters, digits and `-`.
pub open spec fn non_word_pattern() -> Seq<char> {
    "[^\\w\\d-]+"@
}

/// What `regex::Regex::new(pattern)` and then `replace_all(text, replacement)`
/// give: `text` with every leftmost-first, non-overlapping match of `pattern`
/// replaced by `replacement`.
pub uninterp spec fn regex_replace_all(pattern: Seq<char>, text: Seq<char>, replacement: Seq<char>) -> Seq<char>;

/// Compiles `pattern` with `regex::Regex::new` and replaces all its matches in
/// `text` with `replacement` by `Regex::replace_all`. Only the pattern the
/// library uses is admitted, a valid one, so compiling cannot fail; the result
/// is named, not described.
#[verifier::external_body]
fn replace_all_matches(pattern: &str, text: &str, replacement: &str) -> (r: String)
    requires
        pattern@ == non_word_pattern(),
    ensures
        r@ == regex_replace_all(pattern@, text@, replacement@),
{
    regex::Regex::new(pattern).unwrap().replace_all(text, replacement).into_owned()
}

/// `s` with each run of dashes cut to one dash: a `-` that follows a `-` is
/// dropped.
pub open spec fn collapse_dashes(s: Seq<char>) -> Seq<char>
    decreases s.len(),
{
    if s.len() == 0 {
        seq![]
    } else {
        let kept = collapse_dashes(s.drop_last());
        if s.last() == '-' && s.len() > 1 && s[s.len() - 2] == '-' {
            kept
        } else {
            kept.push(s.last())
        }
    }
}

/// Cuts each run of dashes to one dash, as replacing every match of `-{2,}`
/// with `-` does.
pub fn collapse_dash_runs(s: &str) -> (r: String)
    ensures
        r@ == collapse_dashes(s@),
{
    let n = s.unicode_len();
    let mut r = String::new();
    let mut i: usize = 0;
    while i < n
        invariant
            i <= n,
            n == s@.len(),
            r@ == collapse_dashes(s@.take(i as int)),
        decreases n - i,
    {
        let c = s.get_char(i);
        let ghost t = s@.take(i + 1);
        assert(t.drop_last() =~= s@.take(i as int));
        assert(t.last() == c);
        if i > 0 {
            assert(t[t.len() - 2] == s@[i - 1]);
        }
        if !(c == '-' && i > 0 && s.get_char(i - 1) == '-') {
            r.append(s.substring_char(i, i + 1));
            assert(s@.subrange(i as int, i + 1) =~= seq![c]);
        }
        i = i + 1;
    }
    assert(s@.take(n as int) =~= s@);
    r
}

/// Each run of characters other than word characters, digits and `-`
/// becomes one `-`, then each run of dashes becomes one.
pub open spec fn spec_sanitize_filename(base: Seq<char>) -> Seq<char> {
    collapse_dashes(regex_replace_all(non_word_pattern(), base, "-"@))
}

/// Turns a string into a safe file-name stem.
pub fn sanitize_filename(base: &str) -> (r: String)
    ensures
        r@ == spec_sanitize_filename(base@),
{
    let sanitized = replace_all_matches("[^\\w\\d-]+", base, "-");
    collapse_dash_runs(sanitized.as_str())
}

/// `dir` joined with the relative file name `name`, as `Path::join` does on
/// Unix: no separator is added after an empty directory or one that already
/// ends with `/`.
pub open spec fn spec_path_join(dir: Seq<char>, name: Seq<char>) -> Seq<char> {
    if dir.len() == 0 {
        name
    } else if dir.last() == '/' {
        dir + name
    } else {
        dir + "/"@ + name
    }
}

pub fn path_join(dir: &str, name: &str) -> (r: String)
    ensures
        r@ == spec_path_join(dir@, name@),
{
    let n = dir.unicode_len();
    if n == 0 {
        name.to_owned()
    } else if dir.get_char(n - 1) == '/' {
        concat_str(dir, name)
    } else {
        let mut r = concat_str(dir, "/");
        r.append(name);
        r
    }
}

/// `{timestamp}_{model}_{mean_input_tokens}_{mean_output_tokens}`, sanitized.
pub open spec fn spec_results_stem(
    timestamp: Seq<char>,
    model: Seq<char>,
    mean_input_tokens: u32,
    mean_output_tokens: u32,
) -> Seq<char> {
    spec_sanitize_filename(
        timestamp + "_"@ + model + "_"@ + decimal(mean_input_tokens as nat) + "_"@ + decimal(
            mean_output_tokens as nat,
        ),
    )
}

/// Where the results of a run go.
#[derive(Clone, Debug)]
pub struct ResultsSaver {
    pub results_dir: String,
    pub summary_path: String,
    pub individual_responses_path: String,
}

impl ResultsSaver {
    /// The files of a run started at `timestamp`: `<stem>_summary.json` and
    /// `<stem>_individual_responses.jsonl.zst` in `results_dir`.
    pub fn with_timestamp(
        results_dir: &str,
        timestamp: &str,
        model: &str,
        mean_input_tokens: u32,
        mean_output_tokens: u32,
    ) -> (s: ResultsSaver)
        ensures
            s.results_dir@ == results_dir@,
            s.summary_path@ == spec_path_join(
                results_dir@,
                spec_results_stem(timestamp@, model@, mean_input_tokens, mean_output_tokens)
                    + "_summary.json"@,
            ),
            s.individual_responses_path@ == spec_path_join(
                results_dir@,
                spec_results_stem(timestamp@, model@, mean_input_tokens, mean_output_tokens)
                    + "_individual_responses.jsonl.zst"@,
            ),
    {
        let mut base = concat_str(timestamp, "_");
        base.append(model);
        base.append("_");
        base.append(u64_to_decimal(mean_input_tokens as u64).as_str());
        base.append("_");
        base.append(u64_to_decimal(mean_output_tokens as u64).as_str());
        let stem = sanitize_filename(base.as_str());
        let summary_name = concat_str(stem.as_str(), "_summary.json");
        let responses_name = concat_str(stem.as_str(), "_individual_responses.jsonl.zst");
        ResultsSaver {
            results_dir: results_dir.to_owned(),
            summary_path: path_join(results_dir, summary_name.as_str()),
            individual_responses_path: path_join(results_dir, responses_name.as_str()),
        }
    }
}

} // verus!
