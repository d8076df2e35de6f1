//! Choosing the files of an input path and adding what they hold to a dataset.
use crate::error::{result_view, ErrorView, LoglensError};
use crate::model::{DatasetView, InputFormat, IssueView, LogDataset};
use crate::json::json_parse;
use crate::parser::{
    format_outcome, jsonl_issues, jsonl_records, lemma_jsonl_first_issue, lemma_jsonl_issue_lines,
    parse_records,
};
use crate::text::{is_blank, lines};
use crate::paths::{lemma_path_lt, path_less, path_lt};
use crate::text::views;
use vstd::prelude::*;

verus! {

/// What an input path turned out to be on disk.
#[derive(Clone, Copy, Debug, PartialEq, Eq, Structural)]
pub enum PathKind {
    File,
    Directory,
    Other,
}

/// Where `x` goes in a sorted list of paths: after every path not above it.
pub open spec fn path_pos(s: Seq<Seq<char>>, x: Seq<char>) -> int
    decreases s.len(),
{
    if s.len() == 0 || path_lt(x, s[0]) {
        0
    } else {
        1 + path_pos(s.drop_first(), x)
    }
}

/// The paths sorted by `path_lt`, each placed in turn after those not above
/// it (equal paths keep their order).
pub open spec fn path_sort(s: Seq<Seq<char>>) -> Seq<Seq<char>>
    decreases s.len(),
{
    if s.len() == 0 {
        Seq::empty()
    } else {
        let prev = path_sort(s.drop_last());
        prev.insert(path_pos(prev, s.last()), s.last())
    }
}

/// The files an input path stands for: the path itself for a file, the files
/// found below a directory in path order, an error where there are none.
pub open spec fn collected(path: Seq<char>, kind: PathKind, found: Seq<Seq<char>>) -> Result<Seq<Seq<char>>, ErrorView> {
    match kind {
        PathKind::File => Ok(seq![path]),
        PathKind::Other => Err(ErrorView::NoInputFiles { path }),
        PathKind::Directory => if found.len() == 0 {
            Err(ErrorView::NoInputFiles { path })
        } else {
            Ok(path_sort(found))
        },
    }
}

/// The insertion position is the first path above `x`.
proof fn lemma_path_pos(s: Seq<Seq<char>>, x: Seq<char>, i: int)
    requires
        0 <= i <= s.len(),
        forall|j: int| 0 <= j < i ==> !path_lt(x, #[trigger] s[j]),
        i == s.len() || path_lt(x, s[i]),
    ensures
        path_pos(s, x) == i,
    decreases s.len(),
{
    if i > 0 {
        assert(!path_lt(x, s[0]));
        assert forall|j: int| 0 <= j < i - 1 implies !path_lt(x, #[trigger] s.drop_first()[j]) by {
            assert(s.drop_first()[j] == s[j + 1]);
        }
        lemma_path_pos(s.drop_first(), x, i - 1);
    }
}

/// Where `x` goes: after the paths not above it, before the first above it.
proof fn lemma_path_pos_bounds(s: Seq<Seq<char>>, x: Seq<char>)
    ensures
        0 <= path_pos(s, x) <= s.len(),
        forall|j: int| 0 <= j < path_pos(s, x) ==> !path_lt(x, #[trigger] s[j]),
        path_pos(s, x) < s.len() ==> path_lt(x, s[path_pos(s, x)]),
    decreases s.len(),
{
    if s.len() > 0 && !path_lt(x, s[0]) {
        lemma_path_pos_bounds(s.drop_first(), x);
        assert forall|j: int| 0 <= j < path_pos(s, x) implies !path_lt(x, #[trigger] s[j]) by {
            if j > 0 {
                assert(s[j] == s.drop_first()[j - 1]);
            }
        }
    }
}

/// Sorting paths keeps each of them as often as it was given, and puts no
/// path after one that it comes before.
pub proof fn lemma_path_sort(s: Seq<Seq<char>>)
    ensures
        path_sort(s).to_multiset() == s.to_multiset(),
        path_sort(s).len() == s.len(),
        forall|i: int, j: int| 0 <= i < j < s.len() ==> !path_lt(#[trigger] path_sort(s)[j], #[trigger] path_sort(s)[i]),
    decreases s.len(),
{
    broadcast use vstd::seq_lib::group_to_multiset_ensures;

    if s.len() > 0 {
        let d = s.drop_last();
        let x = s.last();
        let prev = path_sort(d);
        lemma_path_sort(d);
        lemma_path_pos_bounds(prev, x);
        let p = path_pos(prev, x);
        let r = prev.insert(p, x);
        prev.insert_ensures(p, x);
        vstd::seq_lib::to_multiset_insert(prev, p, x);
        assert(d.push(x) =~= s);
        assert forall|i: int, j: int| 0 <= i < j < s.len() implies !path_lt(#[trigger] r[j], #[trigger] r[i]) by {
            if j < p {
            } else if j == p {
                assert(r[i] == prev[i]);
            } else if i < p {
                assert(r[i] == prev[i] && r[j] == prev[j - 1]);
                assert(!path_lt(x, prev[i]));
            } else if i == p {
                assert(r[j] == prev[j - 1]);
                if j - 1 == p {
                    lemma_path_lt(prev[p], prev[p], prev[p]);
                } else {
                    assert(!path_lt(prev[j - 1], prev[p]));
                }
                lemma_path_lt(prev[j - 1], x, prev[p]);
            } else {
                assert(r[i] == prev[i - 1] && r[j] == prev[j - 1]);
            }
        }
    }
}

/// The paths in path order (see `path_sort`).
fn sort_paths(files: Vec<String>) -> (r: Vec<String>)
    ensures
        views(r@) == path_sort(views(files@)),
{
    let ghost fv = views(files@);
    let mut out: Vec<String> = Vec::new();
    for f in it: files.into_iter()
        invariant
            it.seq() == files@,
            fv == views(files@),
            views(out@) == path_sort(fv.take(it.index() as int)),
    {
        let ghost s = views(out@);
        proof {
            assert(fv.take(it.index() + 1).drop_last() =~= fv.take(it.index() as int));
            assert(fv.take(it.index() + 1).last() == f@);
        }
        let mut j: usize = 0;
        while j < out.len() && !path_less(f.as_str(), out[j].as_str())
            invariant
                j <= out.len(),
                s == views(out@),
                forall|k: int| 0 <= k < j ==> !path_lt(f@, #[trigger] s[k]),
            decreases out.len() - j,
        {
            j += 1;
        }
        proof {
            lemma_path_pos(s, f@, j as int);
        }
        let ghost fview = f@;
        out.insert(j, f);
        proof {
            s.insert_ensures(j as int, fview);
            assert(views(out@) =~= s.insert(j as int, fview));
        }
    }
    assert(fv.take(files@.len() as int) =~= fv);
    out
}

/// The files an input path stands for (see `collected`); `found` are the
/// files below it where it is a directory.
pub fn collect_files(path: &str, kind: PathKind, found: Vec<String>) -> (r: Result<Vec<String>, LoglensError>)
    ensures
        match r {
            Ok(files) => collected(path@, kind, views(found@)) == Ok::<Seq<Seq<char>>, ErrorView>(views(files@)),
            Err(e) => collected(path@, kind, views(found@)) == Err::<Seq<Seq<char>>, ErrorView>(e@),
        },
{
    match kind {
        PathKind::File => {
            let mut files: Vec<String> = Vec::new();
            files.push(path.to_owned());
            assert(views(files@) =~= seq![path@]);
            Ok(files)
        },
        PathKind::Other => Err(LoglensError::NoInputFiles { path: path.to_owned() }),
        PathKind::Directory => {
            if found.len() == 0 {
                return Err(LoglensError::NoInputFiles { path: path.to_owned() });
            }
            Ok(sort_paths(found))
        },
    }
}

/// The dataset after adding the text of one input, or the error it gives:
/// the input's own error, or in strict mode its first parse issue.
pub open spec fn load_outcome(
    d: DatasetView,
    text: Seq<char>,
    source: Seq<char>,
    format: InputFormat,
    strict: bool,
) -> Result<DatasetView, ErrorView> {
    match format_outcome(text, source, format) {
        Err(e) => Err(e),
        Ok(p) => if strict && p.issues.len() > 0 {
            Err(
                ErrorView::StrictParseIssue {
                    file: p.issues[0].source,
                    line: p.issues[0].line,
                    reason: p.issues[0].reason,
                },
            )
        } else {
            Ok(DatasetView { records: d.records + p.records, issues: d.issues + p.issues })
        },
    }
}

/// Reads the text of one input in `format` and adds its records and issues
/// to `dataset` (see `load_outcome`); on an error the dataset is unchanged.
pub fn load_text(
    dataset: &mut LogDataset,
    text: &str,
    source: &str,
    format: InputFormat,
    strict: bool,
) -> (r: Result<(), LoglensError>)
    ensures
        match r {
            Ok(_) => load_outcome(old(dataset)@, text@, source@, format, strict) == Ok::<DatasetView, ErrorView>(final(dataset)@),
            Err(e) => load_outcome(old(dataset)@, text@, source@, format, strict) == Err::<DatasetView, ErrorView>(e@)
                && final(dataset)@ == old(dataset)@,
        },
{
    let parsed = match parse_records(text, source, format) {
        Ok(p) => p,
        Err(e) => return Err(e),
    };
    if strict && parsed.issues.len() > 0 {
        let issue = &parsed.issues[0];
        return Err(LoglensError::StrictParseIssue {
            file: issue.source.clone(),
            line: issue.line,
            reason: issue.reason.clone(),
        });
    }
    let ghost before = dataset@;
    let ghost pv = parsed@;
    dataset.extend(parsed);
    assert(dataset@.records =~= before.records + pv.records);
    assert(dataset@.issues =~= before.issues + pv.issues);
    Ok(())
}

/// Strict mode changes only what happens to parse issues: an input that
/// cannot be read fails in both modes alike; without strict mode what is
/// read is added after what was loaded, issues and all; in strict mode an
/// input with issues fails on its first one, and one without is added as
/// without strict mode.
pub proof fn lemma_strict_load(d: DatasetView, text: Seq<char>, source: Seq<char>, format: InputFormat)
    ensures
        match format_outcome(text, source, format) {
            Err(e) => load_outcome(d, text, source, format, false) == Err::<DatasetView, ErrorView>(e)
                && load_outcome(d, text, source, format, true) == Err::<DatasetView, ErrorView>(e),
            Ok(p) => {
                &&& load_outcome(d, text, source, format, false) == Ok::<DatasetView, ErrorView>(
                    DatasetView { records: d.records + p.records, issues: d.issues + p.issues },
                )
                &&& p.issues.len() == 0 ==> load_outcome(d, text, source, format, true) == load_outcome(
                    d,
                    text,
                    source,
                    format,
                    false,
                )
                &&& p.issues.len() > 0 ==> load_outcome(d, text, source, format, true) == Err::<
                    DatasetView,
                    ErrorView,
                >(
                    ErrorView::StrictParseIssue {
                        file: p.issues[0].source,
                        line: p.issues[0].line,
                        reason: p.issues[0].reason,
                    },
                )
            },
        },
{
}

/// The outcome of loading the inputs in turn into `d`, each given as its
/// text, its source and the format it is read in, stopping at the first
/// error (see `load_outcome`).
pub open spec fn load_all(
    d: DatasetView,
    inputs: Seq<(Seq<char>, Seq<char>, InputFormat)>,
    strict: bool,
) -> Result<DatasetView, ErrorView>
    decreases inputs.len(),
{
    if inputs.len() == 0 {
        Ok(d)
    } else {
        match load_all(d, inputs.drop_last(), strict) {
            Err(e) => Err(e),
            Ok(d2) => load_outcome(d2, inputs.last().0, inputs.last().1, inputs.last().2, strict),
        }
    }
}

/// The error strict mode gives for an issue.
pub open spec fn strict_error(i: IssueView) -> ErrorView {
    ErrorView::StrictParseIssue { file: i.source, line: i.line, reason: i.reason }
}

/// Strict mode over a whole load: where loading without strict mode
/// succeeds, loading the same inputs in strict mode gives the same dataset
/// when no issue was added, and otherwise fails on the first issue added.
/// So a strict load that succeeds adds no issue.
pub proof fn lemma_strict_load_all(d: DatasetView, inputs: Seq<(Seq<char>, Seq<char>, InputFormat)>)
    ensures
        load_all(d, inputs, false) matches Ok(ds) ==> {
            &&& ds.issues.len() >= d.issues.len()
            &&& ds.issues.len() == d.issues.len() ==> load_all(d, inputs, true) == Ok::<DatasetView, ErrorView>(ds)
            &&& ds.issues.len() > d.issues.len() ==> load_all(d, inputs, true) == Err::<DatasetView, ErrorView>(
                strict_error(ds.issues[d.issues.len() as int]),
            )
        },
        load_all(d, inputs, true) matches Ok(ds) ==> ds.issues.len() == d.issues.len(),
    decreases inputs.len(),
{
    if inputs.len() > 0 {
        let prev = inputs.drop_last();
        let (text, source, format) = inputs.last();
        lemma_strict_load_all(d, prev);
        lemma_strict_load(d, text, source, format);
        match load_all(d, prev, false) {
            Ok(d1) => {
                lemma_strict_load(d1, text, source, format);
                match format_outcome(text, source, format) {
                    Ok(p) => {
                        let ds = DatasetView { records: d1.records + p.records, issues: d1.issues + p.issues };
                        assert(ds.issues.len() == d1.issues.len() + p.issues.len());
                        if d1.issues.len() > d.issues.len() {
                            assert(ds.issues[d.issues.len() as int] == d1.issues[d.issues.len() as int]);
                        } else if p.issues.len() > 0 {
                            assert(ds.issues[d.issues.len() as int] == p.issues[0]);
                        }
                    },
                    Err(e) => {},
                }
            },
            Err(e) => {},
        }
        match load_all(d, prev, true) {
            Ok(d1) => {
                lemma_strict_load(d1, text, source, format);
            },
            Err(e) => {},
        }
    }
}

/// Loading JSON lines: without strict mode it never fails, and adds the
/// records of the lines that read as JSON and an issue for each other
/// non-blank line; in strict mode it fails exactly when some non-blank line
/// is no JSON, naming the first such line, and otherwise adds the same.
pub proof fn lemma_jsonl_load(d: DatasetView, text: Seq<char>, source: Seq<char>)
    requires
        lines(text).len() <= usize::MAX,
    ensures
        load_outcome(d, text, source, InputFormat::Jsonl, false) == Ok::<DatasetView, ErrorView>(
            DatasetView {
                records: d.records + jsonl_records(lines(text), source),
                issues: d.issues + jsonl_issues(lines(text), source),
            },
        ),
        (forall|k: int| 0 <= k < lines(text).len() ==> (is_blank(#[trigger] lines(text)[k]) || json_parse(
            lines(text)[k],
        ) is Ok)) ==> load_outcome(d, text, source, InputFormat::Jsonl, true) == load_outcome(
            d,
            text,
            source,
            InputFormat::Jsonl,
            false,
        ),
        !(forall|k: int| 0 <= k < lines(text).len() ==> (is_blank(#[trigger] lines(text)[k]) || json_parse(
            lines(text)[k],
        ) is Ok)) ==> (load_outcome(d, text, source, InputFormat::Jsonl, true) matches Err(
            ErrorView::StrictParseIssue { file, line, reason },
        ) && file == source && 1 <= line <= lines(text).len() && !is_blank(lines(text)[line - 1]) && json_parse(
            lines(text)[line - 1],
        ) is Err && reason == "invalid JSON: "@ + json_parse(lines(text)[line - 1])->Err_0 && forall|k: int|
            0 <= k < line - 1 ==> (is_blank(#[trigger] lines(text)[k]) || json_parse(lines(text)[k]) is Ok)),
{
    let ls = lines(text);
    lemma_jsonl_first_issue(ls, source);
    lemma_jsonl_issue_lines(ls, source);
    lemma_jsonl_issue_reasons(ls, source);
}

/// The reason of a JSON lines issue is the parse error of its line.
proof fn lemma_jsonl_issue_reasons(ls: Seq<Seq<char>>, source: Seq<char>)
    requires
        ls.len() <= usize::MAX,
    ensures
        forall|i: int| 0 <= i < jsonl_issues(ls, source).len() ==> (#[trigger] jsonl_issues(ls, source)[i]).reason
            == "invalid JSON: "@ + json_parse(ls[jsonl_issues(ls, source)[i].line - 1])->Err_0,
    decreases ls.len(),
{
    if ls.len() > 0 {
        let prev = ls.drop_last();
        lemma_jsonl_issue_reasons(prev, source);
        lemma_jsonl_issue_lines(prev, source);
        assert forall|i: int| 0 <= i < jsonl_issues(ls, source).len() implies (#[trigger] jsonl_issues(
            ls,
            source,
        )[i]).reason == "invalid JSON: "@ + json_parse(ls[jsonl_issues(ls, source)[i].line - 1])->Err_0 by {
            if i < jsonl_issues(prev, source).len() {
                let issue = jsonl_issues(prev, source)[i];
                assert(jsonl_issues(ls, source)[i] == issue);
                assert(ls[issue.line - 1] == prev[issue.line - 1]);
            }
        }
    }
}

} // verus!
