//! Lines of metrics in the Prometheus text format.

use crate::decimal::{amount_of, read_amount, Amount, Number};
use crate::text::{
    chars_of, find_char, find_from, find_last, joined, last_index, law_find_from, law_last_index,
    lemma_until_is, occurs_at, search, slice_of, text_of, until,
};
use vstd::prelude::*;

verus! {

/// The value of a label: what stands in quotes behind the first place where its name stands
/// before an equals sign and a quote.
pub open spec fn label_value(line: Seq<char>, label: Seq<char>) -> Option<Seq<char>> {
    let pattern = label + "=\""@;
    let pos = find_from(line, pattern, 0);
    let rest = line.skip(pos + pattern.len());
    let n = until(rest, '"');
    if pos >= 0 && n < rest.len() {
        Some(rest.take(n))
    } else {
        None
    }
}

/// Extracts a label's value from the characters of a line.
pub fn label_in(line: &Vec<char>, label: &str) -> (r: Option<String>)
    ensures
        match r {
            Some(v) => label_value(line@, label@) == Some(v@),
            None => label_value(line@, label@) is None,
        },
{
    let pattern: String = joined(label, "=\"");
    let width: usize = chars_of(pattern.as_str()).len();
    match search(line, pattern.as_str(), 0) {
        Some(pos) => {
            let total: usize = line.len();
            let start: usize = pos + width;
            let end: usize = find_char(line, '"', start);
            let ghost rest = line@.skip(start as int);
            if end == total {
                return None;
            }
            assert(line@.subrange(start as int, end as int) =~= rest.take(end - start));
            Some(text_of(line, start, end))
        },
        None => None,
    }
}

/// Extracts a label's value from a metric line.
pub fn extract_label(line: &str, label: &str) -> (r: Option<String>)
    ensures
        match r {
            Some(v) => label_value(line@, label@) == Some(v@),
            None => label_value(line@, label@) is None,
        },
{
    label_in(&chars_of(line), label)
}

/// The value of a metric line: what stands behind its last space.
pub open spec fn line_amount(line: Seq<char>) -> Option<Amount> {
    let space = last_index(line, ' ');
    if space >= 0 {
        amount_of(line.skip(space + 1))
    } else {
        None
    }
}

/// Reads the value of a metric line.
pub fn read_line_amount(line: &Vec<char>) -> (r: Option<Number>)
    ensures
        line_amount(line@) == match r {
            Some(n) => Some(n@),
            None => None,
        },
{
    let total: usize = line.len();
    match find_last(line, ' ') {
        Some(i) => {
            let value: Vec<char> = slice_of(line, i + 1, total);
            assert(value@ =~= line@.skip(i + 1));
            read_amount(&value)
        },
        None => None,
    }
}

/// A label's value is what was written behind its name, an equals sign and in quotes, at the first
/// place where these stand.
pub proof fn law_label_value(a: Seq<char>, label: Seq<char>, value: Seq<char>, b: Seq<char>)
    requires
        !value.contains('"'),
        forall|i: int|
            0 <= i < a.len() ==> !#[trigger] occurs_at(
                a + (label + "=\""@) + value.push('"') + b,
                label + "=\""@,
                i,
            ),
    ensures
        label_value(a + (label + "=\""@) + value.push('"') + b, label) == Some(value),
{
    let p = label + "=\""@;
    let line = a + p + value.push('"') + b;
    assert(line.subrange(a.len() as int, a.len() as int + p.len()) =~= p);
    law_find_from(line, p, 0);
    let pos = find_from(line, p, 0);
    assert(occurs_at(line, p, a.len() as int));
    assert(pos == a.len());
    let rest = line.skip(pos + p.len());
    assert(rest =~= value.push('"') + b);
    assert forall|i: int| 0 <= i < value.len() implies rest[i] != '"' by {
        assert(value.contains(value[i]));
    }
    lemma_until_is(rest, '"', value.len() as int);
    assert(rest.take(value.len() as int) =~= value);
}

/// A line's value is what its last word without a space in it is worth.
pub proof fn law_line_amount(a: Seq<char>, value: Seq<char>)
    requires
        !value.contains(' '),
    ensures
        line_amount(a.push(' ') + value) == amount_of(value),
{
    let line = a.push(' ') + value;
    law_last_index(line, ' ');
    let k = last_index(line, ' ');
    assert(line[a.len() as int] == ' ');
    assert(line.contains(' '));
    if k > a.len() {
        assert(value[k - a.len() - 1] == ' ');
        assert(value.contains(' '));
    }
    assert(line.skip(k + 1) =~= value);
}

} // verus!
