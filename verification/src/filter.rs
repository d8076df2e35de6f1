//! Selecting records by level, keyword, pattern, time range and fields.
use crate::error::{ErrorView, LoglensError};
use crate::model::{
    lemma_text_fields_lookup, level_rank, parse_field_filter, record_views, FieldFilter, LogLevel,
    LogRecord, RecordView,
};
use crate::pattern::{compile_pattern, pattern_is_match, regex_error, regex_is_match, Pattern};
use crate::strmap::lookup;
use crate::text::{
    chars_of, contains_chars, contains_text, lower, lower_chars, lower_text, push_char, push_str,
};
use crate::time::{instant_before, is_before, parse_timestamp, timestamp_value, Timestamp};
use vstd::prelude::*;

verus! {

/// The conditions a record must meet; each one that is set must hold.
#[derive(Debug)]
pub struct FilterOptions {
    pub level: Option<LogLevel>,
    pub min_level: Option<LogLevel>,
    /// Lower-cased.
    pub keyword: Option<String>,
    pub pattern: Option<Pattern>,
    pub from: Option<Timestamp>,
    pub to: Option<Timestamp>,
    pub fields: Vec<FieldFilter>,
}

/// Filter conditions with their texts taken by their views; the pattern is
/// the text it was compiled from.
pub struct FilterView {
    pub level: Option<LogLevel>,
    pub min_level: Option<LogLevel>,
    pub keyword: Option<Seq<char>>,
    pub pattern: Option<Seq<char>>,
    pub from: Option<Timestamp>,
    pub to: Option<Timestamp>,
    pub fields: Seq<(Seq<char>, Seq<char>)>,
}

/// Field filters as key/value pairs.
pub open spec fn filter_pairs(f: Seq<FieldFilter>) -> Seq<(Seq<char>, Seq<char>)> {
    f.map_values(|x: FieldFilter| (x.key@, x.value@))
}

impl View for FilterOptions {
    type V = FilterView;

    open spec fn view(&self) -> FilterView {
        FilterView {
            level: self.level,
            min_level: self.min_level,
            keyword: match self.keyword {
                Some(k) => Some(k@),
                None => None,
            },
            pattern: match self.pattern {
                Some(p) => Some(p.source()),
                None => None,
            },
            from: self.from,
            to: self.to,
            fields: filter_pairs(self.fields@),
        }
    }
}

/// `" key=value"` for each field, in order.
pub open spec fn fields_text(f: Seq<(Seq<char>, Seq<char>)>) -> Seq<char>
    decreases f.len(),
{
    if f.len() == 0 {
        Seq::empty()
    } else {
        fields_text(f.drop_last()) + seq![' '] + f.last().0 + seq!['='] + f.last().1
    }
}

/// The text keywords and patterns are looked for in: the message, a space,
/// the source, then `" key=value"` for each field.
pub open spec fn search_text(r: RecordView) -> Seq<char> {
    r.message + seq![' '] + r.source + fields_text(r.fields)
}

/// Whether a record meets every condition that is set: the exact level; a
/// level at least as severe as the minimum; each field present with the
/// value; the keyword in the lower-cased search text; the pattern in the
/// search text; a time not before `from` and not after `to`.
pub open spec fn matches_view(o: FilterView, r: RecordView) -> bool {
    &&& (o.level matches Some(l) ==> r.level == Some(l))
    &&& (o.min_level matches Some(m) ==> (r.level matches Some(l) && level_rank(l) >= level_rank(m)))
    &&& (forall|i: int| 0 <= i < o.fields.len() ==> lookup(r.fields, #[trigger] o.fields[i].0) == Some(o.fields[i].1))
    &&& (o.keyword matches Some(k) ==> contains_text(lower(search_text(r)), k))
    &&& (o.pattern matches Some(p) ==> regex_is_match(p, search_text(r)))
    &&& (o.from matches Some(f) ==> (r.timestamp matches Some(t) && !instant_before(t, f)))
    &&& (o.to matches Some(u) ==> (r.timestamp matches Some(t) && !instant_before(u, t)))
}

/// Whether no condition is set.
pub open spec fn no_conditions(o: FilterView) -> bool {
    o.level is None && o.min_level is None && o.keyword is None && o.pattern is None && o.from is None
        && o.to is None && o.fields.len() == 0
}

/// The records that meet the conditions, in their order.
pub open spec fn matching(rs: Seq<RecordView>, o: FilterView) -> Seq<RecordView>
    decreases rs.len(),
{
    if rs.len() == 0 {
        Seq::empty()
    } else if matches_view(o, rs.last()) {
        matching(rs.drop_last(), o).push(rs.last())
    } else {
        matching(rs.drop_last(), o)
    }
}

/// Index of the first text that is no `key=value` filter.
pub open spec fn first_bad_field(fields: Seq<Seq<char>>) -> Option<int>
    decreases fields.len(),
{
    if fields.len() == 0 {
        None
    } else if parse_field_filter(fields[0]) is None {
        Some(0)
    } else {
        match first_bad_field(fields.drop_first()) {
            Some(i) => Some(i + 1),
            None => None,
        }
    }
}

/// What `FilterOptions::new` builds from its arguments, or the first error:
/// a bad field filter, then a pattern that does not compile, then a `from`
/// and then a `to` that is no time.
pub open spec fn options_outcome(
    level: Option<LogLevel>,
    min_level: Option<LogLevel>,
    keyword: Option<Seq<char>>,
    regex: Option<Seq<char>>,
    from: Option<Seq<char>>,
    to: Option<Seq<char>>,
    fields: Seq<Seq<char>>,
) -> Result<FilterView, ErrorView> {
    match first_bad_field(fields) {
        Some(i) => Err(ErrorView::InvalidFieldFilter { value: fields[i] }),
        None => if regex matches Some(p) && regex_error(p) is Some {
            Err(ErrorView::Regex(regex_error(regex->0)->0))
        } else if from matches Some(f) && timestamp_value(f) is None {
            Err(ErrorView::InvalidTimestamp { value: from->0 })
        } else if to matches Some(t) && timestamp_value(t) is None {
            Err(ErrorView::InvalidTimestamp { value: to->0 })
        } else {
            Ok(
                FilterView {
                    level,
                    min_level,
                    keyword: match keyword {
                        Some(k) => Some(lower(k)),
                        None => None,
                    },
                    pattern: regex,
                    from: match from {
                        Some(f) => timestamp_value(f),
                        None => None,
                    },
                    to: match to {
                        Some(t) => timestamp_value(t),
                        None => None,
                    },
                    fields: fields.map_values(|f: Seq<char>| parse_field_filter(f)->0),
                },
            )
        },
    }
}

/// Views of optional strings.
pub open spec fn opt_view(o: Option<String>) -> Option<Seq<char>> {
    match o {
        Some(s) => Some(s@),
        None => None,
    }
}

/// The first bad field filter is where the scan stops.
proof fn lemma_first_bad_field(fields: Seq<Seq<char>>, i: int)
    requires
        0 <= i <= fields.len(),
        forall|j: int| 0 <= j < i ==> parse_field_filter(#[trigger] fields[j]) is Some,
    ensures
        i < fields.len() && parse_field_filter(fields[i]) is None ==> first_bad_field(fields) == Some(i),
        i == fields.len() ==> first_bad_field(fields) is None,
    decreases i,
{
    if i > 0 {
        assert forall|j: int| 0 <= j < i - 1 implies parse_field_filter(#[trigger] fields.drop_first()[j]) is Some by {
            assert(fields.drop_first()[j] == fields[j + 1]);
        }
        lemma_first_bad_field(fields.drop_first(), i - 1);
        assert(parse_field_filter(fields[0]) is Some);
    } else if fields.len() > 0 {
    }
}

impl FilterOptions {
    /// Builds the conditions from their textual forms (see `options_outcome`).
    pub fn new(
        level: Option<LogLevel>,
        min_level: Option<LogLevel>,
        keyword: Option<String>,
        regex: Option<String>,
        from: Option<String>,
        to: Option<String>,
        fields: Vec<String>,
    ) -> (r: Result<FilterOptions, LoglensError>)
        ensures
            crate::error::result_view(r) == options_outcome(
                level,
                min_level,
                opt_view(keyword),
                opt_view(regex),
                opt_view(from),
                opt_view(to),
                crate::text::views(fields@),
            ),
    {
        let ghost fv = crate::text::views(fields@);
        let mut parsed: Vec<FieldFilter> = Vec::new();
        for i in 0..fields.len()
            invariant
                fv == crate::text::views(fields@),
                forall|j: int| 0 <= j < i ==> parse_field_filter(#[trigger] fv[j]) is Some,
                filter_pairs(parsed@) == fv.take(i as int).map_values(|f: Seq<char>| parse_field_filter(f)->0),
        {
            match FieldFilter::parse(fields[i].as_str()) {
                Some(f) => {
                    let ghost prev = parsed@;
                    assert(fv[i as int] == fields@[i as int]@);
                    assert(fv.take(i + 1).map_values(|f: Seq<char>| parse_field_filter(f)->0) =~= fv.take(i as int).map_values(|f: Seq<char>| parse_field_filter(f)->0).push((f.key@, f.value@)));
                    parsed.push(f);
                    assert(filter_pairs(parsed@) =~= filter_pairs(prev).push((f.key@, f.value@)));
                    assert(filter_pairs(parsed@) =~= fv.take(i + 1).map_values(|f: Seq<char>| parse_field_filter(f)->0));
                },
                None => {
                    proof {
                        lemma_first_bad_field(fv, i as int);
                    }
                    return Err(LoglensError::InvalidFieldFilter { value: fields[i].clone() });
                },
            }
        }
        proof {
            lemma_first_bad_field(fv, fields.len() as int);
            assert(fv.take(fields.len() as int) =~= fv);
        }
        let pattern = match &regex {
            Some(p) => match compile_pattern(p.as_str()) {
                Ok(c) => Some(c),
                Err(m) => return Err(LoglensError::Regex(m)),
            },
            None => None,
        };
        let from_ts = match &from {
            Some(f) => match parse_timestamp(f.as_str()) {
                Ok(t) => Some(t),
                Err(e) => return Err(e),
            },
            None => None,
        };
        let to_ts = match &to {
            Some(t) => match parse_timestamp(t.as_str()) {
                Ok(ts) => Some(ts),
                Err(e) => return Err(e),
            },
            None => None,
        };
        let keyword_lower = match &keyword {
            Some(k) => Some(lower_text(k.as_str())),
            None => None,
        };
        Ok(FilterOptions {
            level,
            min_level,
            keyword: keyword_lower,
            pattern,
            from: from_ts,
            to: to_ts,
            fields: parsed,
        })
    }

    /// Whether no condition is set.
    pub fn is_empty(&self) -> (r: bool)
        ensures
            r == no_conditions(self@),
    {
        self.level.is_none() && self.min_level.is_none() && self.keyword.is_none()
            && self.pattern.is_none() && self.from.is_none() && self.to.is_none()
            && self.fields.len() == 0
    }

    /// Whether a record meets every condition that is set (see `matches_view`).
    pub fn matches(&self, record: &LogRecord) -> (r: bool)
        ensures
            r == matches_view(self@, record@),
    {
        if let Some(level) = self.level {
            match record.level {
                Some(l) => if l != level {
                    return false;
                },
                None => return false,
            }
        }
        if let Some(min_level) = self.min_level {
            match record.level {
                Some(record_level) => if record_level.rank() < min_level.rank() {
                    return false;
                },
                None => return false,
            }
        }
        let mut i: usize = 0;
        while i < self.fields.len()
            invariant
                i <= self.fields.len(),
                forall|j: int| 0 <= j < i ==> lookup(record@.fields, #[trigger] self@.fields[j].0) == Some(self@.fields[j].1),
            decreases self.fields.len() - i,
        {
            if !field_matches(record, &self.fields[i]) {
                assert(self@.fields[i as int] == (self.fields@[i as int].key@, self.fields@[i as int].value@));
                assert(lookup(record@.fields, self@.fields[i as int].0) != Some(self@.fields[i as int].1));
                assert(!matches_view(self@, record@));
                return false;
            }
            i += 1;
        }
        if let Some(keyword) = &self.keyword {
            let haystack = record_search_text(record);
            let lowered = lower_chars(&chars_of(haystack.as_str()));
            let needle = chars_of(keyword.as_str());
            if !contains_chars(&lowered, &needle) {
                return false;
            }
        }
        if let Some(pattern) = &self.pattern {
            let haystack = record_search_text(record);
            if !pattern_is_match(pattern, haystack.as_str()) {
                return false;
            }
        }
        if let Some(from) = &self.from {
            match &record.timestamp {
                Some(t) => if is_before(t, from) {
                    return false;
                },
                None => return false,
            }
        }
        if let Some(to) = &self.to {
            match &record.timestamp {
                Some(t) => if is_before(to, t) {
                    return false;
                },
                None => return false,
            }
        }
        true
    }
}

/// The search text of a record (see `search_text`).
fn record_search_text(record: &LogRecord) -> (r: String)
    ensures
        r@ == search_text(record@),
{
    let mut text = record.message.clone();
    push_char(&mut text, ' ');
    push_str(&mut text, record.source.as_str());
    let ghost f = record@.fields;
    assert(fields_text(f.take(0)) =~= Seq::<char>::empty());
    let ghost base = record.message@ + seq![' '] + record.source@;
    let n = record.fields.len();
    for i in 0..n
        invariant
            n == record.fields@.len(),
            f == record@.fields,
            f.len() == n,
            text@ == base + fields_text(f.take(i as int)),
    {
        proof {
            assert(f.take(i + 1).drop_last() =~= f.take(i as int));
        }
        push_char(&mut text, ' ');
        push_str(&mut text, record.fields.key_at(i).as_str());
        push_char(&mut text, '=');
        push_str(&mut text, record.fields.value_at(i).as_str());
        assert(text@ =~= base + fields_text(f.take(i + 1)));
    }
    assert(f.take(n as int) =~= f);
    assert(search_text(record@) =~= base + fields_text(f));
    text
}

/// Whether the record has the filter's key with exactly its value.
fn field_matches(record: &LogRecord, filter: &FieldFilter) -> (r: bool)
    ensures
        r == (lookup(record@.fields, filter.key@) == Some(filter.value@)),
{
    proof {
        lemma_text_fields_lookup(record.fields@, filter.key@);
    }
    match record.fields.get(filter.key.as_str()) {
        Some(value) => crate::text::text_eq(value.as_str(), filter.value.as_str()),
        None => false,
    }
}

/// The records that meet the conditions, in their order; all of them where
/// no condition is set.
pub fn apply_filters(records: Vec<LogRecord>, options: &FilterOptions) -> (r: Vec<LogRecord>)
    ensures
        record_views(r@) == matching(record_views(records@), options@),
{
    if options.is_empty() {
        proof {
            lemma_no_conditions_keep_all(record_views(records@), options@);
        }
        return records;
    }
    let ghost rs = record_views(records@);
    let mut out: Vec<LogRecord> = Vec::new();
    for record in it: records.into_iter()
        invariant
            it.seq() == records@,
            rs == record_views(records@),
            record_views(out@) == matching(rs.take(it.index() as int), options@),
    {
        proof {
            assert(rs.take(it.index() + 1).drop_last() =~= rs.take(it.index() as int));
            assert(rs.take(it.index() + 1).last() == record@);
        }
        if options.matches(&record) {
            let ghost prev = out@;
            out.push(record);
            assert(record_views(out@) =~= record_views(prev).push(record@));
        }
    }
    assert(rs.take(records@.len() as int) =~= rs);
    out
}

/// Filtering keeps only records that meet the conditions, never more than
/// it was given, and filtering again changes nothing.
pub proof fn lemma_matching_sound(rs: Seq<RecordView>, o: FilterView)
    ensures
        forall|i: int| 0 <= i < matching(rs, o).len() ==> matches_view(o, #[trigger] matching(rs, o)[i]),
        matching(rs, o).len() <= rs.len(),
        matching(matching(rs, o), o) == matching(rs, o),
    decreases rs.len(),
{
    if rs.len() > 0 {
        lemma_matching_sound(rs.drop_last(), o);
        let prev = matching(rs.drop_last(), o);
        if matches_view(o, rs.last()) {
            let m = prev.push(rs.last());
            assert(m.drop_last() =~= prev);
            assert(matching(m, o) == matching(prev, o).push(rs.last()));
        }
    }
}

/// Filtering loses no record that meets the conditions: each such record is
/// among those kept.
pub proof fn lemma_matching_complete(rs: Seq<RecordView>, o: FilterView)
    ensures
        forall|i: int| 0 <= i < rs.len() && matches_view(o, #[trigger] rs[i]) ==> matching(rs, o).contains(rs[i]),
    decreases rs.len(),
{
    if rs.len() > 0 {
        let prev = rs.drop_last();
        lemma_matching_complete(prev, o);
        assert forall|i: int| 0 <= i < rs.len() && matches_view(o, #[trigger] rs[i]) implies matching(rs, o).contains(
            rs[i],
        ) by {
            if i < prev.len() {
                assert(rs[i] == prev[i]);
                assert(matching(prev, o).contains(prev[i]));
                let k = choose|k: int| 0 <= k < matching(prev, o).len() && matching(prev, o)[k] == prev[i];
                if matches_view(o, rs.last()) {
                    assert(matching(rs, o)[k] == prev[i]);
                } else {
                    assert(matching(rs, o)[k] == prev[i]);
                }
            } else {
                assert(matching(rs, o).last() == rs[i]);
            }
        }
    }
}

/// A record is kept exactly when it meets the conditions: filtering a single
/// record keeps it or drops it by `matches_view`.
pub proof fn lemma_matching_single(r: RecordView, o: FilterView)
    ensures
        matching(seq![r], o) == if matches_view(o, r) {
            seq![r]
        } else {
            Seq::<RecordView>::empty()
        },
{
    reveal_with_fuel(matching, 2);
    assert(seq![r].drop_last() =~= Seq::<RecordView>::empty());
    assert(seq![r].last() == r);
    assert(Seq::<RecordView>::empty().push(r) =~= seq![r]);
}

/// Without conditions every record is kept.
pub proof fn lemma_no_conditions_keep_all(rs: Seq<RecordView>, o: FilterView)
    requires
        no_conditions(o),
    ensures
        matching(rs, o) == rs,
    decreases rs.len(),
{
    if rs.len() > 0 {
        lemma_no_conditions_keep_all(rs.drop_last(), o);
        assert(rs.drop_last().push(rs.last()) =~= rs);
    }
}

/// An exact level keeps only records of that very level: a kept record has
/// the requested level, so no other level (a more severe one included) and
/// no record without a level passes; after filtering every record has it.
pub proof fn lemma_exact_level_kept(rs: Seq<RecordView>, o: FilterView, l: LogLevel)
    requires
        o.level == Some(l),
    ensures
        forall|r: RecordView| #[trigger] matches_view(o, r) ==> r.level == Some(l),
        forall|r: RecordView| r.level != Some(l) ==> !#[trigger] matches_view(o, r),
        forall|i: int| 0 <= i < matching(rs, o).len() ==> (#[trigger] matching(rs, o)[i]).level == Some(l),
{
    lemma_matching_sound(rs, o);
}

} // verus!
