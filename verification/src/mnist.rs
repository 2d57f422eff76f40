//! The labeled dataset format: one header line, then one record per line of
//! the form `<label>,<pixel_1>,...,<pixel_784>`, read up to the first empty
//! line. The loader's own acceptance is structural — `split_dataset_text`
//! checks the column count of every record and hands the fields back for the
//! caller to convert, so any numeric form the caller can read is welcome.
//! For files whose fields are plain decimal integers, `parse_dataset_text`
//! is an exact fast path straight to integer pixel rows and one-hot target
//! rows; scaling the pixels to the unit interval is the caller's affair.

use vstd::prelude::*;
use crate::parsing::{dec_value, line_ok, parse_line, parse_line_u64, split_on, lemma_split_at_first_sep};

verus! {

/// Feature columns of a record: the pixels of a 28-by-28 image.
pub const NUM_FEATURES: usize = 784;

/// Columns of a record: one label and the feature columns.
pub const LINE_SIZE: usize = 785;

/// Number of classes, and so the width of a one-hot target row.
pub const NUM_CLASSES: usize = 10;

/// A line with one trailing carriage return removed, as a line reader
/// treats a `\r\n` ending.
pub open spec fn strip_cr(l: Seq<char>) -> Seq<char> {
    if l.len() >= 1 && l.last() == '\r' {
        l.drop_last()
    } else {
        l
    }
}

/// The leading run of nonempty lines: each raw line stripped of its carriage
/// return, stopping at the first line left empty.
pub open spec fn take_until_empty(ls: Seq<Seq<char>>) -> Seq<Seq<char>>
    decreases ls.len(),
{
    if ls.len() == 0 {
        Seq::empty()
    } else if strip_cr(ls[0]).len() == 0 {
        Seq::empty()
    } else {
        seq![strip_cr(ls[0])] + take_until_empty(ls.drop_first())
    }
}

/// The records of a dataset text: every line after the header, up to the
/// first empty line.
pub open spec fn dataset_lines(text: Seq<char>) -> Seq<Seq<char>> {
    take_until_empty(split_on(text, '\n').drop_first())
}

/// A record on the integer fast path: a comma-separated line of exactly
/// `LINE_SIZE` fields, each a plain decimal integer.
pub open spec fn record_ok(l: Seq<char>) -> bool {
    line_ok(l, ',') && split_on(l, ',').len() == LINE_SIZE
}

/// Every record of the dataset text parses on the integer fast path.
pub open spec fn dataset_ok(text: Seq<char>) -> bool {
    forall|i: int| 0 <= i < dataset_lines(text).len() ==> record_ok(#[trigger] dataset_lines(text)[i])
}

/// The one-hot row of width `width` for class `label`: a 1 in the label's
/// position and 0 elsewhere (all zeros when the label is out of range).
pub open spec fn one_hot_row(label: nat, width: nat) -> Seq<u64> {
    Seq::new(width, |i: int| if i == label { 1u64 } else { 0u64 })
}

/// The feature values of a parsed record: the fields after the label.
pub open spec fn record_features(l: Seq<char>) -> Seq<u64> {
    Seq::new((NUM_FEATURES) as nat, |j: int| dec_value(split_on(l, ',')[j + 1]) as u64)
}

/// The label field of a parsed record.
pub open spec fn record_label(l: Seq<char>) -> nat {
    dec_value(split_on(l, ',')[0])
}

/// Build the one-hot encoding of a class label.
pub fn one_hot(label: u64, width: usize) -> (r: Vec<u64>)
    ensures
        r@ == one_hot_row(label as nat, width as nat),
{
    let mut r: Vec<u64> = Vec::new();
    let mut i: usize = 0;
    while i < width
        invariant
            i <= width,
            r@.len() == i,
            forall|j: int| 0 <= j < i ==> r@[j] == (if j == label as int {
                1u64
            } else {
                0u64
            }),
        decreases width - i,
    {
        if (i as u64) == label {
            r.push(1);
        } else {
            r.push(0);
        }
        i = i + 1;
    }
    proof {
        assert(r@ =~= one_hot_row(label as nat, width as nat));
    }
    r
}

/// Parse one record line into its raw pixel values and its label: the
/// integer fast path of `split_dataset_line`.
///
/// Succeeds exactly when the line is a comma-separated record of
/// `LINE_SIZE` plain decimal integer fields; the first field is the label
/// and the rest are the pixels, undisturbed and in order. A record in any
/// other numeric form is not malformed — split it and convert its fields.
pub fn parse_dataset_line(line: &str) -> (r: Option<(Vec<u64>, u64)>)
    ensures
        match r {
            Some(p) => {
                &&& record_ok(line@)
                &&& p.0@ == record_features(line@)
                &&& p.1 == record_label(line@)
            },
            None => !record_ok(line@),
        },
{
    match parse_line_u64(line, ',') {
        None => None,
        Some(mut v) => {
            if v.len() != LINE_SIZE {
                return None;
            }
            let label = v.remove(0);
            proof {
                assert(v@ =~= record_features(line@));
            }
            Some((v, label))
        },
    }
}

/// The raw contents of a dataset: aligned integer feature rows and one-hot
/// target rows.
pub struct RawDataset {
    pub features: Vec<Vec<u64>>,
    pub targets: Vec<Vec<u64>>,
}

impl RawDataset {
    /// Row counts match, every feature row has `NUM_FEATURES` entries and
    /// every target row has one entry per class.
    pub open spec fn wf(self) -> bool {
        &&& self.features@.len() == self.targets@.len()
        &&& forall|i: int|
            0 <= i < self.features@.len() ==> (#[trigger] self.features@[i])@.len() == NUM_FEATURES
        &&& forall|i: int|
            0 <= i < self.targets@.len() ==> (#[trigger] self.targets@[i])@.len() == NUM_CLASSES
    }

    /// Number of rows.
    pub fn len(&self) -> (n: usize)
        ensures
            n == self.features@.len(),
    {
        self.features.len()
    }
}

/// The parsed rows of the record lines `ls`, in order.
pub open spec fn rows_match_lines(fs: Seq<Vec<u64>>, ts: Seq<Vec<u64>>, ls: Seq<Seq<char>>) -> bool {
    &&& fs.len() == ls.len()
    &&& ts.len() == ls.len()
    &&& forall|i: int| 0 <= i < ls.len() ==> (#[trigger] fs[i])@ == record_features(ls[i])
    &&& forall|i: int|
        0 <= i < ls.len() ==> (#[trigger] ts[i])@ == one_hot_row(
            record_label(ls[i]),
            (NUM_CLASSES) as nat,
        )
}

/// Every line of `ls` is a parsable record.
pub open spec fn lines_ok(ls: Seq<Seq<char>>) -> bool {
    forall|i: int| 0 <= i < ls.len() ==> record_ok(#[trigger] ls[i])
}

/// Parse the leading nonempty lines of `t` as records.
fn parse_records(t: &str) -> (r: Option<(Vec<Vec<u64>>, Vec<Vec<u64>>)>)
    ensures
        match r {
            Some(p) => {
                &&& lines_ok(take_until_empty(split_on(t@, '\n')))
                &&& rows_match_lines(p.0@, p.1@, take_until_empty(split_on(t@, '\n')))
            },
            None => !lines_ok(take_until_empty(split_on(t@, '\n'))),
        },
    decreases t@.len(),
{
    let ghost ls = take_until_empty(split_on(t@, '\n'));
    let n = t.unicode_len();
    let mut i: usize = 0;
    while i < n && t.get_char(i) != '\n'
        invariant
            i <= n == t@.len(),
            forall|j: int| 0 <= j < i ==> t@[j] != '\n',
        decreases n - i,
    {
        i = i + 1;
    }
    proof {
        lemma_split_at_first_sep(t@, '\n', i as int);
    }
    let end: usize = if i >= 1 && t.get_char(i - 1) == '\r' {
        i - 1
    } else {
        i
    };
    let line = t.substring_char(0, end);
    proof {
        if i == n {
            assert(t@.subrange(0, i as int) =~= t@);
        }
        assert(line@ =~= strip_cr(t@.subrange(0, i as int)));
        assert(split_on(t@, '\n')[0] == t@.subrange(0, i as int));
    }
    if end == 0 {
        let fs: Vec<Vec<u64>> = Vec::new();
        let ts: Vec<Vec<u64>> = Vec::new();
        proof {
            assert(ls =~= Seq::<Seq<char>>::empty());
        }
        return Some((fs, ts));
    }
    let parsed = match parse_dataset_line(line) {
        None => {
            proof {
                assert(ls[0] == line@);
            }
            return None;
        },
        Some(p) => p,
    };
    let target = one_hot(parsed.1, NUM_CLASSES);
    if i == n {
        let mut fs: Vec<Vec<u64>> = Vec::new();
        let mut ts: Vec<Vec<u64>> = Vec::new();
        fs.push(parsed.0);
        ts.push(target);
        proof {
            assert(split_on(t@, '\n') == seq![t@]);
            assert(seq![t@].drop_first() =~= Seq::<Seq<char>>::empty());
            assert(take_until_empty(Seq::<Seq<char>>::empty()) =~= Seq::<Seq<char>>::empty());
            assert(ls =~= seq![line@]);
        }
        return Some((fs, ts));
    }
    let tail = t.substring_char(i + 1, n);
    let ghost lst = take_until_empty(split_on(tail@, '\n'));
    proof {
        assert(tail@ == t@.subrange(i + 1, t@.len() as int));
        assert(split_on(t@, '\n').drop_first() =~= split_on(tail@, '\n'));
        assert(ls =~= seq![line@] + lst);
        assert(forall|k: int| 0 <= k < lst.len() ==> ls[k + 1] == #[trigger] lst[k]);
    }
    match parse_records(tail) {
        None => {
            proof {
                if lines_ok(ls) {
                    assert forall|k: int| 0 <= k < lst.len() implies record_ok(
                        #[trigger] lst[k],
                    ) by {
                        assert(ls[k + 1] == lst[k]);
                        assert(record_ok(ls[k + 1]));
                    }
                }
            }
            None
        },
        Some((mut fs_tail, mut ts_tail)) => {
            let ghost fs_tail0 = fs_tail@;
            let ghost ts_tail0 = ts_tail@;
            let mut fs: Vec<Vec<u64>> = Vec::new();
            let mut ts: Vec<Vec<u64>> = Vec::new();
            fs.push(parsed.0);
            ts.push(target);
            fs.append(&mut fs_tail);
            ts.append(&mut ts_tail);
            proof {
                assert forall|k: int| 0 <= k < ls.len() implies record_ok(#[trigger] ls[k]) by {
                    if k == 0 {
                        assert(ls[0] == line@);
                    } else {
                        assert(ls[k] == lst[k - 1]);
                    }
                }
                assert forall|k: int| 0 <= k < ls.len() implies (#[trigger] fs@[k])@
                    == record_features(ls[k]) && ts@[k]@ == one_hot_row(
                    record_label(ls[k]),
                    (NUM_CLASSES) as nat,
                ) by {
                    if k > 0 {
                        assert(ls[k] == lst[k - 1]);
                        assert(fs@[k] == fs_tail0[k - 1]);
                        assert(ts@[k] == ts_tail0[k - 1]);
                    }
                }
            }
            Some((fs, ts))
        },
    }
}

/// Parse a whole dataset text on the integer fast path: skip the header
/// line, then read one record per line up to the first empty line.
///
/// Succeeds exactly when every such record is a comma-separated line of
/// `LINE_SIZE` plain decimal integer fields, and then returns one feature
/// row and one one-hot target row per record, in file order. A text in any
/// other numeric form belongs to `split_dataset_text`, whose caller converts
/// the fields itself.
pub fn parse_dataset_text(text: &str) -> (r: Option<RawDataset>)
    ensures
        match r {
            Some(ds) => {
                &&& dataset_ok(text@)
                &&& ds.wf()
                &&& rows_match_lines(ds.features@, ds.targets@, dataset_lines(text@))
            },
            None => !dataset_ok(text@),
        },
{
    let n = text.unicode_len();
    let mut i: usize = 0;
    while i < n && text.get_char(i) != '\n'
        invariant
            i <= n == text@.len(),
            forall|j: int| 0 <= j < i ==> text@[j] != '\n',
        decreases n - i,
    {
        i = i + 1;
    }
    proof {
        lemma_split_at_first_sep(text@, '\n', i as int);
    }
    if i == n {
        let ds = RawDataset { features: Vec::new(), targets: Vec::new() };
        proof {
            assert(split_on(text@, '\n') == seq![text@]);
            assert(dataset_lines(text@) =~= Seq::<Seq<char>>::empty());
        }
        return Some(ds);
    }
    let body = text.substring_char(i + 1, n);
    proof {
        assert(body@ == text@.subrange(i + 1, text@.len() as int));
        assert(split_on(text@, '\n').drop_first() =~= split_on(body@, '\n'));
        assert(dataset_lines(text@) == take_until_empty(split_on(body@, '\n')));
    }
    match parse_records(body) {
        None => None,
        Some((fs, ts)) => {
            let ds = RawDataset { features: fs, targets: ts };
            proof {
                assert forall|k: int| 0 <= k < ds.targets@.len() implies (
                #[trigger] ds.targets@[k])@.len() == NUM_CLASSES by {
                    let lsk = dataset_lines(text@)[k];
                    assert(ds.targets@[k]@ == one_hot_row(
                        record_label(lsk),
                        (NUM_CLASSES) as nat,
                    ));
                }
            }
            Some(ds)
        },
    }
}

/// A line with the record shape: exactly `LINE_SIZE` comma-separated
/// fields, whatever each field holds.
pub open spec fn record_shape_ok(l: Seq<char>) -> bool {
    split_on(l, ',').len() == LINE_SIZE
}

/// Every record of the dataset text has the record shape. This is all the
/// loader itself checks: what counts as a numeric field is the converting
/// caller's affair.
pub open spec fn dataset_shape_ok(text: Seq<char>) -> bool {
    forall|i: int|
        0 <= i < dataset_lines(text).len() ==> record_shape_ok(#[trigger] dataset_lines(text)[i])
}

/// `row` holds the fields of the record line `l`, in order and as they
/// stand.
pub open spec fn row_matches_line(row: Seq<String>, l: Seq<char>) -> bool {
    &&& row.len() == split_on(l, ',').len()
    &&& forall|j: int| 0 <= j < row.len() ==> (#[trigger] row[j])@ == split_on(l, ',')[j]
}

/// The split rows of the record lines `ls`, in order.
pub open spec fn split_rows_match_lines(rows: Seq<Vec<String>>, ls: Seq<Seq<char>>) -> bool {
    &&& rows.len() == ls.len()
    &&& forall|i: int| 0 <= i < ls.len() ==> row_matches_line((#[trigger] rows[i])@, ls[i])
}

/// Every line of `ls` has the record shape.
pub open spec fn lines_shape_ok(ls: Seq<Seq<char>>) -> bool {
    forall|i: int| 0 <= i < ls.len() ==> record_shape_ok(#[trigger] ls[i])
}

/// Split one record line into its fields, checking only the column count.
///
/// Succeeds exactly when the line has `LINE_SIZE` comma-separated fields,
/// and then returns them untouched: the label field first, the feature
/// fields after it, for the caller to convert.
pub fn split_dataset_line(line: &str) -> (r: Option<Vec<String>>)
    ensures
        match r {
            Some(row) => record_shape_ok(line@) && row_matches_line(row@, line@),
            None => !record_shape_ok(line@),
        },
{
    let row = parse_line(line, ',');
    if row.len() != LINE_SIZE {
        return None;
    }
    Some(row)
}

/// Split the leading nonempty lines of `t` into rows of fields.
fn split_records(t: &str) -> (r: Option<Vec<Vec<String>>>)
    ensures
        match r {
            Some(rows) => {
                &&& lines_shape_ok(take_until_empty(split_on(t@, '\n')))
                &&& split_rows_match_lines(rows@, take_until_empty(split_on(t@, '\n')))
            },
            None => !lines_shape_ok(take_until_empty(split_on(t@, '\n'))),
        },
    decreases t@.len(),
{
    let ghost ls = take_until_empty(split_on(t@, '\n'));
    let n = t.unicode_len();
    let mut i: usize = 0;
    while i < n && t.get_char(i) != '\n'
        invariant
            i <= n == t@.len(),
            forall|j: int| 0 <= j < i ==> t@[j] != '\n',
        decreases n - i,
    {
        i = i + 1;
    }
    proof {
        lemma_split_at_first_sep(t@, '\n', i as int);
    }
    let end: usize = if i >= 1 && t.get_char(i - 1) == '\r' {
        i - 1
    } else {
        i
    };
    let line = t.substring_char(0, end);
    proof {
        if i == n {
            assert(t@.subrange(0, i as int) =~= t@);
        }
        assert(line@ =~= strip_cr(t@.subrange(0, i as int)));
        assert(split_on(t@, '\n')[0] == t@.subrange(0, i as int));
    }
    if end == 0 {
        let rows: Vec<Vec<String>> = Vec::new();
        proof {
            assert(ls =~= Seq::<Seq<char>>::empty());
        }
        return Some(rows);
    }
    let row = match split_dataset_line(line) {
        None => {
            proof {
                assert(ls[0] == line@);
            }
            return None;
        },
        Some(row) => row,
    };
    if i == n {
        let mut rows: Vec<Vec<String>> = Vec::new();
        rows.push(row);
        proof {
            assert(split_on(t@, '\n') == seq![t@]);
            assert(seq![t@].drop_first() =~= Seq::<Seq<char>>::empty());
            assert(take_until_empty(Seq::<Seq<char>>::empty()) =~= Seq::<Seq<char>>::empty());
            assert(ls =~= seq![line@]);
        }
        return Some(rows);
    }
    let tail = t.substring_char(i + 1, n);
    let ghost lst = take_until_empty(split_on(tail@, '\n'));
    proof {
        assert(tail@ == t@.subrange(i + 1, t@.len() as int));
        assert(split_on(t@, '\n').drop_first() =~= split_on(tail@, '\n'));
        assert(ls =~= seq![line@] + lst);
        assert(forall|k: int| 0 <= k < lst.len() ==> ls[k + 1] == #[trigger] lst[k]);
    }
    match split_records(tail) {
        None => {
            proof {
                if lines_shape_ok(ls) {
                    assert forall|k: int| 0 <= k < lst.len() implies record_shape_ok(
                        #[trigger] lst[k],
                    ) by {
                        assert(ls[k + 1] == lst[k]);
                        assert(record_shape_ok(ls[k + 1]));
                    }
                }
            }
            None
        },
        Some(mut rows_tail) => {
            let ghost rows_tail0 = rows_tail@;
            let mut rows: Vec<Vec<String>> = Vec::new();
            rows.push(row);
            rows.append(&mut rows_tail);
            proof {
                assert forall|k: int| 0 <= k < ls.len() implies record_shape_ok(
                    #[trigger] ls[k],
                ) by {
                    if k == 0 {
                        assert(ls[0] == line@);
                    } else {
                        assert(ls[k] == lst[k - 1]);
                    }
                }
                assert forall|k: int| 0 <= k < ls.len() implies row_matches_line(
                    (#[trigger] rows@[k])@,
                    ls[k],
                ) by {
                    if k > 0 {
                        assert(ls[k] == lst[k - 1]);
                        assert(rows@[k] == rows_tail0[k - 1]);
                    }
                }
            }
            Some(rows)
        },
    }
}

/// Split a whole dataset text into rows of fields: skip the header line,
/// then one row per line up to the first empty line.
///
/// This is the loader's own acceptance: it succeeds exactly when every such
/// record has `LINE_SIZE` comma-separated columns, and leaves every field as
/// it stands for the caller to convert to its numeric type. A file whose
/// fields are all plain decimal integers can instead take the exact fast
/// path of `parse_dataset_text`.
pub fn split_dataset_text(text: &str) -> (r: Option<Vec<Vec<String>>>)
    ensures
        match r {
            Some(rows) => {
                &&& dataset_shape_ok(text@)
                &&& split_rows_match_lines(rows@, dataset_lines(text@))
            },
            None => !dataset_shape_ok(text@),
        },
{
    let n = text.unicode_len();
    let mut i: usize = 0;
    while i < n && text.get_char(i) != '\n'
        invariant
            i <= n == text@.len(),
            forall|j: int| 0 <= j < i ==> text@[j] != '\n',
        decreases n - i,
    {
        i = i + 1;
    }
    proof {
        lemma_split_at_first_sep(text@, '\n', i as int);
    }
    if i == n {
        let rows: Vec<Vec<String>> = Vec::new();
        proof {
            assert(split_on(text@, '\n') == seq![text@]);
            assert(dataset_lines(text@) =~= Seq::<Seq<char>>::empty());
        }
        return Some(rows);
    }
    let body = text.substring_char(i + 1, n);
    proof {
        assert(body@ == text@.subrange(i + 1, text@.len() as int));
        assert(split_on(text@, '\n').drop_first() =~= split_on(body@, '\n'));
        assert(dataset_lines(text@) == take_until_empty(split_on(body@, '\n')));
    }
    split_records(body)
}

} // verus!
