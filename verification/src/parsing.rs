//! Splitting and parsing of separator-delimited records.
//!
//! A record is a line of fields split by a separator character, such as one
//! row of a comma-separated dataset file. `parse_line` performs the split
//! itself, which never fails; what counts as a numeric field is the
//! converting caller's affair, so the split does not narrow what a loader
//! accepts. For records known to hold plain decimal integers, `parse_u64`
//! and `parse_line_u64` are a fully specified fast path.

use vstd::prelude::*;

verus! {

/// A decimal digit: code point between '0' and '9'.
pub open spec fn is_digit(c: char) -> bool {
    48 <= c as u32 <= 57
}

/// The numeric value of a digit character; zero on anything else.
pub open spec fn digit_val(c: char) -> nat {
    if is_digit(c) {
        (c as u32 - 48) as nat
    } else {
        0
    }
}

/// Every character of the sequence is a decimal digit.
pub open spec fn all_digits(f: Seq<char>) -> bool {
    forall|i: int| 0 <= i < f.len() ==> is_digit(#[trigger] f[i])
}

/// The value of a digit sequence read as a decimal numeral; the empty
/// sequence reads as zero.
pub open spec fn dec_value(f: Seq<char>) -> nat
    decreases f.len(),
{
    if f.len() == 0 {
        0
    } else {
        dec_value(f.drop_last()) * 10 + digit_val(f.last())
    }
}

/// A parsable field: nonempty, all digits, and small enough for a `u64`.
pub open spec fn field_ok(f: Seq<char>) -> bool {
    &&& f.len() >= 1
    &&& all_digits(f)
    &&& dec_value(f) <= u64::MAX
}

/// The fields of `s` split at every occurrence of `sep`: always at least one
/// field, with an empty field between adjacent separators and at the ends.
pub open spec fn split_on(s: Seq<char>, sep: char) -> Seq<Seq<char>>
    decreases s.len(),
{
    if s.len() == 0 {
        seq![Seq::<char>::empty()]
    } else if s[0] == sep {
        seq![Seq::<char>::empty()] + split_on(s.drop_first(), sep)
    } else {
        let rest = split_on(s.drop_first(), sep);
        seq![seq![s[0]] + rest[0]] + rest.drop_first()
    }
}

/// Every field of the record parses: the condition under which `parse_line`
/// succeeds.
pub open spec fn line_ok(s: Seq<char>, sep: char) -> bool {
    forall|i: int| 0 <= i < split_on(s, sep).len() ==> field_ok(#[trigger] split_on(s, sep)[i])
}

/// A split has at least one field.
pub proof fn lemma_split_on_nonempty(s: Seq<char>, sep: char)
    ensures
        split_on(s, sep).len() >= 1,
    decreases s.len(),
{
    if s.len() == 0 {
    } else if s[0] == sep {
    } else {
        lemma_split_on_nonempty(s.drop_first(), sep);
    }
}

/// Splitting at the first separator: if `i` is the index of the first
/// occurrence of `sep` (or the length of `s` when there is none), the fields
/// of `s` are the prefix before `i` followed by the fields of the suffix
/// after `i`.
pub proof fn lemma_split_at_first_sep(s: Seq<char>, sep: char, i: int)
    requires
        0 <= i <= s.len(),
        forall|j: int| 0 <= j < i ==> s[j] != sep,
        i < s.len() ==> s[i] == sep,
    ensures
        i == s.len() ==> split_on(s, sep) == seq![s],
        i < s.len() ==> split_on(s, sep) == seq![s.subrange(0, i)] + split_on(
            s.subrange(i + 1, s.len() as int),
            sep,
        ),
    decreases s.len(),
{
    if s.len() == 0 {
        assert(split_on(s, sep) =~~= seq![s]);
    } else if i == 0 {
        if i < s.len() {
            assert(s.drop_first() =~= s.subrange(1, s.len() as int));
            assert(s.subrange(0, 0) =~= Seq::<char>::empty());
            assert(split_on(s, sep) =~~= seq![s.subrange(0, 0)] + split_on(
                s.subrange(1, s.len() as int),
                sep,
            ));
        }
    } else {
        let s1 = s.drop_first();
        lemma_split_on_nonempty(s1, sep);
        lemma_split_at_first_sep(s1, sep, i - 1);
        if i == s.len() {
            assert(split_on(s1, sep) == seq![s1]);
            assert(seq![s[0]] + s1 =~= s);
            assert(split_on(s, sep) =~~= seq![s]);
        } else {
            let prefix1 = s1.subrange(0, i - 1);
            let suffix1 = s1.subrange(i, s1.len() as int);
            assert(split_on(s1, sep) == seq![prefix1] + split_on(suffix1, sep));
            assert((seq![prefix1] + split_on(suffix1, sep))[0] == prefix1);
            assert((seq![prefix1] + split_on(suffix1, sep)).drop_first() =~= split_on(
                suffix1,
                sep,
            ));
            assert(seq![s[0]] + prefix1 =~= s.subrange(0, i));
            assert(suffix1 =~= s.subrange(i + 1, s.len() as int));
            assert(split_on(s, sep) =~~= seq![s.subrange(0, i)] + split_on(
                s.subrange(i + 1, s.len() as int),
                sep,
            ));
        }
    }
}

/// Reading more digits never shrinks the decimal value: the value of a
/// prefix is at most the value of the whole numeral.
pub proof fn lemma_dec_value_prefix_le(f: Seq<char>, i: int)
    requires
        0 <= i <= f.len(),
    ensures
        dec_value(f.take(i)) <= dec_value(f),
    decreases f.len() - i,
{
    if i == f.len() {
        assert(f.take(i) =~= f);
    } else {
        lemma_dec_value_prefix_le(f, i + 1);
        assert(f.take(i + 1).drop_last() =~= f.take(i));
        assert(dec_value(f.take(i + 1)) == dec_value(f.take(i)) * 10 + digit_val(
            f.take(i + 1).last(),
        ));
    }
}

/// Parse the digit run `s[from..to]` as a decimal `u64`.
fn parse_field(s: &str, from: usize, to: usize) -> (r: Option<u64>)
    requires
        from <= to <= s@.len(),
    ensures
        match r {
            Some(v) => field_ok(s@.subrange(from as int, to as int)) && v == dec_value(
                s@.subrange(from as int, to as int),
            ),
            None => !field_ok(s@.subrange(from as int, to as int)),
        },
{
    let ghost f = s@.subrange(from as int, to as int);
    if from == to {
        return None;
    }
    let mut val: u64 = 0;
    let mut i: usize = from;
    while i < to
        invariant
            from <= i <= to <= s@.len(),
            f == s@.subrange(from as int, to as int),
            forall|j: int| from <= j < i ==> is_digit(#[trigger] s@[j]),
            val == dec_value(s@.subrange(from as int, i as int)),
        decreases to - i,
    {
        let c = s.get_char(i);
        let cu = c as u32;
        if cu < 48 || cu > 57 {
            proof {
                assert(f[i - from] == s@[i as int]);
            }
            return None;
        }
        let d = (cu - 48) as u64;
        let wide: u128 = val as u128 * 10 + d as u128;
        proof {
            assert(s@.subrange(from as int, i + 1).drop_last() =~= s@.subrange(
                from as int,
                i as int,
            ));
            assert(s@.subrange(from as int, i + 1).last() == s@[i as int]);
        }
        if wide > u64::MAX as u128 {
            proof {
                assert(f.take(i + 1 - from) =~= s@.subrange(from as int, i + 1));
                lemma_dec_value_prefix_le(f, i + 1 - from);
            }
            return None;
        }
        val = wide as u64;
        i = i + 1;
    }
    proof {
        assert(f =~= s@.subrange(from as int, to as int));
        assert(forall|j: int| 0 <= j < f.len() ==> f[j] == s@[from + j]);
    }
    Some(val)
}

/// Split a record of the form `<x1><sep><x2><sep>...` into its fields.
///
/// Returns every separator-delimited field, in order, exactly as it stands
/// in the record. Converting a field to a numeric type is the caller's
/// work, so no input is rejected here: the split always succeeds.
pub fn parse_line(s: &str, separator: char) -> (fields: Vec<String>)
    ensures
        fields@.len() == split_on(s@, separator).len(),
        forall|i: int|
            0 <= i < fields@.len() ==> (#[trigger] fields@[i])@ == split_on(s@, separator)[i],
    decreases s@.len(),
{
    let n = s.unicode_len();
    let mut i: usize = 0;
    while i < n && s.get_char(i) != separator
        invariant
            i <= n == s@.len(),
            forall|j: int| 0 <= j < i ==> s@[j] != separator,
        decreases n - i,
    {
        i = i + 1;
    }
    proof {
        lemma_split_at_first_sep(s@, separator, i as int);
    }
    let first = s.substring_char(0, i).to_owned();
    if i == n {
        proof {
            assert(s@.subrange(0, i as int) =~= s@);
        }
        let mut fields: Vec<String> = Vec::new();
        fields.push(first);
        fields
    } else {
        let rest = s.substring_char(i + 1, n);
        let ghost sp = split_on(s@, separator);
        let ghost spr = split_on(rest@, separator);
        proof {
            assert(rest@ == s@.subrange(i + 1, s@.len() as int));
            assert(sp == seq![s@.subrange(0, i as int)] + spr);
            assert(sp[0] == s@.subrange(0, i as int));
            assert(forall|k: int| 0 <= k < spr.len() ==> sp[k + 1] == #[trigger] spr[k]);
            lemma_split_on_nonempty(rest@, separator);
        }
        let mut tail = parse_line(rest, separator);
        let ghost tail0 = tail@;
        let mut fields: Vec<String> = Vec::new();
        fields.push(first);
        fields.append(&mut tail);
        proof {
            assert forall|k: int| 0 <= k < fields@.len() implies (#[trigger] fields@[k])@
                == sp[k] by {
                if k > 0 {
                    assert(fields@[k] == tail0[k - 1]);
                    assert(sp[k] == spr[k - 1]);
                }
            }
        }
        fields
    }
}

/// Parse a whole field as a decimal `u64`.
///
/// Succeeds exactly when the field is a nonempty run of decimal digits whose
/// value fits in a `u64`, and then returns that value.
pub fn parse_u64(field: &str) -> (r: Option<u64>)
    ensures
        match r {
            Some(v) => field_ok(field@) && v == dec_value(field@),
            None => !field_ok(field@),
        },
{
    let n = field.unicode_len();
    let r = parse_field(field, 0, n);
    proof {
        assert(field@.subrange(0, n as int) =~= field@);
    }
    r
}

/// Parse a record into the decimal values of its fields.
///
/// The fast path for integer-valued records: returns the value of each
/// separator-delimited field, in order, exactly when every field is a
/// nonempty run of decimal digits whose value fits in a `u64`; returns
/// nothing otherwise. A record whose fields take any other numeric form is
/// not malformed — split it with `parse_line` and let the caller convert.
pub fn parse_line_u64(s: &str, separator: char) -> (r: Option<Vec<u64>>)
    ensures
        match r {
            Some(v) => {
                &&& line_ok(s@, separator)
                &&& v@.len() == split_on(s@, separator).len()
                &&& forall|i: int|
                    0 <= i < v@.len() ==> v@[i] == dec_value(
                        #[trigger] split_on(s@, separator)[i],
                    )
            },
            None => !line_ok(s@, separator),
        },
{
    let ghost sp = split_on(s@, separator);
    let fields = parse_line(s, separator);
    let mut v: Vec<u64> = Vec::new();
    let mut k: usize = 0;
    while k < fields.len()
        invariant
            sp == split_on(s@, separator),
            fields@.len() == sp.len(),
            forall|i: int| 0 <= i < fields@.len() ==> (#[trigger] fields@[i])@ == sp[i],
            k <= fields@.len(),
            v@.len() == k,
            forall|i: int| 0 <= i < k ==> field_ok(#[trigger] sp[i]),
            forall|i: int| 0 <= i < k ==> v@[i] == dec_value(#[trigger] sp[i]),
        decreases fields@.len() - k,
    {
        match parse_u64(fields[k].as_str()) {
            Some(val) => {
                v.push(val);
            },
            None => {
                proof {
                    assert(!field_ok(sp[k as int]));
                }
                return None;
            },
        }
        k = k + 1;
    }
    Some(v)
}

} // verus!
