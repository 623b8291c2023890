//! From the text of a delimited file to rows, and from rows to records.

use crate::record::{distinct, lemma_put, lemma_to_map, names, put, to_map, Entry, Record};
use crate::text::{
    chars_of, find_in, lemma_find_is, lines, split, split_in, trim_end, trim_end_of,
};
use vstd::prelude::*;

verus! {

/// Why a text could not be read as asked.
#[derive(Debug, Clone, Copy, PartialEq, Eq, Structural)]
pub enum ReadError {
    /// The text ended before the line that was asked for.
    UnexpectedEof,
}

/// The fields of one line: what is left of it without the white space at
/// its end, cut at each semicolon.
pub open spec fn fields_of(line: Seq<char>) -> Seq<Seq<char>> {
    split(trim_end(line), ';')
}

/// The rows of the given lines, one for each.
pub open spec fn rows_of(ls: Seq<Seq<char>>) -> Seq<Seq<Seq<char>>> {
    Seq::new(ls.len(), |i: int| fields_of(ls[i]))
}

/// The rows of a text. With `header` set the first line, if there is one,
/// gives no row.
pub open spec fn rows(text: Seq<char>, header: bool) -> Seq<Seq<Seq<char>>> {
    let ls = lines(text);
    if header && ls.len() > 0 {
        rows_of(ls.drop_first())
    } else {
        rows_of(ls)
    }
}

/// Only the empty text has no line.
pub proof fn lemma_lines_empty(text: Seq<char>)
    ensures
        lines(text).len() == 0 <==> text.len() == 0,
{
}

/// A header costs exactly the first row: read with `header` set, the rows
/// are those read without it, less the first.
pub proof fn lemma_header_drops_first_row(text: Seq<char>)
    ensures
        rows(text, false).len() == 0 ==> rows(text, true).len() == 0,
        rows(text, false).len() > 0 ==> rows(text, true) == rows(text, false).drop_first(),
{
}

/// Reads the rows of `text`, the content of a delimited file: one row for
/// each line, its fields parted by semicolons. With `header` set the first
/// line is passed over.
pub fn read_csv(text: &str, header: bool) -> (ret: Vec<Vec<String>>)
    ensures
        ret.deep_view() == rows(text@, header),
{
    let chars = chars_of(text);
    let len = chars.len();
    let mut ret: Vec<Vec<String>> = Vec::new();
    let mut skip: bool = header;
    let mut start: usize = 0;
    let ghost mut seen: Seq<Seq<char>> = Seq::empty();
    assert(chars@.subrange(0, len as int) == chars@);
    while start < len
        invariant
            start <= len == chars.len(),
            lines(chars@) == seen + lines(chars@.subrange(start as int, len as int)),
            skip == (header && seen.len() == 0),
            ret.deep_view() == rows_of(
                if header && seen.len() > 0 {
                    seen.drop_first()
                } else {
                    seen
                },
            ),
        decreases len - start,
    {
        let ghost rest = chars@.subrange(start as int, len as int);
        let ghost before = ret.deep_view();
        let at = find_in(&chars, start, len, '\n');
        let ghost line = chars@.subrange(start as int, at as int);
        if skip {
            skip = false;
        } else {
            let end = trim_end_of(&chars, start, at);
            let row = split_in(&chars, start, end, ';');
            ret.push(row);
            assert(ret.deep_view() == before.push(fields_of(line)));
        }
        let next: usize = if at < len {
            at + 1
        } else {
            len
        };
        proof {
            assert(rest.take(at - start) == line);
            assert(at < len ==> rest.skip(at - start + 1) == chars@.subrange(
                next as int,
                len as int,
            ));
            seen = seen.push(line);
        }
        start = next;
    }
    ret
}

/// Reads the template that `text` holds, the content of a template file:
/// the fields of its first line. A text without a line has none to give.
pub fn read_template(text: &str) -> (ret: Result<Vec<String>, ReadError>)
    ensures
        match ret {
            Ok(template) => text@.len() > 0 && template.deep_view() == rows(text@, false)[0],
            Err(e) => text@.len() == 0 && e == ReadError::UnexpectedEof,
        },
{
    let chars = chars_of(text);
    let len = chars.len();
    if len == 0 {
        return Err(ReadError::UnexpectedEof);
    }
    let at = find_in(&chars, 0, len, '\n');
    let end = trim_end_of(&chars, 0, at);
    let template = split_in(&chars, 0, end, ';');
    assert(chars@.subrange(0, len as int) == chars@);
    Ok(template)
}

/// The fields that the first `n` places of a row and a template give: each
/// name of the template with the value at the same place of the row, a
/// later value taking the place of an earlier one of the same name.
pub open spec fn zip_upto(row: Seq<Seq<char>>, template: Seq<Seq<char>>, n: nat) -> Seq<Entry>
    decreases n,
{
    if n == 0 {
        Seq::empty()
    } else {
        put(zip_upto(row, template, (n - 1) as nat), template[n - 1], row[n - 1])
    }
}

/// The shorter of two lengths.
pub open spec fn shorter(m: nat, n: nat) -> nat {
    if m <= n {
        m
    } else {
        n
    }
}

/// The fields of a row under a template. What the longer of the two has
/// beyond the other's length is left out.
pub open spec fn zip(row: Seq<Seq<char>>, template: Seq<Seq<char>>) -> Seq<Entry> {
    zip_upto(row, template, shorter(row.len(), template.len()))
}

/// Whatever the template, the fields it gives have distinct names.
pub proof fn lemma_zip_distinct(row: Seq<Seq<char>>, template: Seq<Seq<char>>, n: nat)
    ensures
        distinct(zip_upto(row, template, n)),
    decreases n,
{
    if n > 0 {
        lemma_zip_distinct(row, template, (n - 1) as nat);
        lemma_put(zip_upto(row, template, (n - 1) as nat), template[n - 1], row[n - 1]);
    }
}

/// Under a template whose names differ, a row of `m` values and a template
/// of `n` names give as many fields as the shorter is long: at each place
/// the template's name with the row's value.
pub proof fn lemma_zip_pairs(row: Seq<Seq<char>>, template: Seq<Seq<char>>, n: nat)
    requires
        n <= row.len(),
        n <= template.len(),
        forall|i: int, j: int| 0 <= i < j < n ==> template[i] != template[j],
    ensures
        zip_upto(row, template, n).len() == n,
        forall|i: int| 0 <= i < n ==> zip_upto(row, template, n)[i] == (template[i], row[i]),
    decreases n,
{
    if n > 0 {
        let before = zip_upto(row, template, (n - 1) as nat);
        lemma_zip_pairs(row, template, (n - 1) as nat);
        lemma_find_is(names(before), template[n - 1], n - 1);
    }
}

/// Under a template whose names differ, a row of `m` values and a template
/// of `n` names give a record of as many fields as the shorter is long, in
/// which each of these names has the value at its place in the row.
pub proof fn lemma_zip_shorter(row: Seq<Seq<char>>, template: Seq<Seq<char>>)
    requires
        forall|i: int, j: int|
            0 <= i < j < shorter(row.len(), template.len()) ==> template[i] != template[j],
    ensures
        zip(row, template).len() == shorter(row.len(), template.len()),
        to_map(zip(row, template)).dom().finite(),
        to_map(zip(row, template)).len() == shorter(row.len(), template.len()),
        forall|i: int|
            0 <= i < shorter(row.len(), template.len()) ==> to_map(
                zip(row, template),
            ).contains_key(#[trigger] template[i]) && to_map(zip(row, template))[template[i]]
                == row[i],
{
    let n = shorter(row.len(), template.len());
    lemma_zip_distinct(row, template, n);
    lemma_zip_pairs(row, template, n);
    lemma_to_map(zip(row, template));
    assert forall|i: int| 0 <= i < n implies to_map(zip(row, template)).contains_key(
        #[trigger] template[i],
    ) && to_map(zip(row, template))[template[i]] == row[i] by {
        assert(zip(row, template)[i] == (template[i], row[i]));
    }
}

/// Whatever the template, the record has a field for every name among its
/// first `n`, and for no other; where a name comes more than once its last
/// place gives the value.
pub proof fn lemma_zip_last_wins(row: Seq<Seq<char>>, template: Seq<Seq<char>>, n: nat)
    requires
        n <= row.len(),
        n <= template.len(),
    ensures
        forall|name: Seq<char>|
            to_map(zip_upto(row, template, n)).contains_key(name) <==> exists|i: int|
                0 <= i < n && #[trigger] template[i] == name,
        forall|i: int|
            0 <= i < n && (forall|j: int| i < j < n ==> template[j] != template[i]) ==> to_map(
                zip_upto(row, template, n),
            )[#[trigger] template[i]] == row[i],
    decreases n,
{
    if n > 0 {
        let m = (n - 1) as nat;
        let before = zip_upto(row, template, m);
        lemma_zip_last_wins(row, template, m);
        lemma_zip_distinct(row, template, m);
        lemma_put(before, template[n - 1], row[n - 1]);
    }
}

/// Maps one row onto the names of a template.
pub fn map_row(row: &Vec<String>, template: &Vec<String>) -> (record: Record)
    ensures
        record.entries() == zip(row.deep_view(), template.deep_view()),
{
    let n: usize = if row.len() <= template.len() {
        row.len()
    } else {
        template.len()
    };
    let mut record = Record::new();
    let mut i: usize = 0;
    while i < n
        invariant
            i <= n,
            n == shorter(row.len() as nat, template.len() as nat),
            record.entries() == zip_upto(row.deep_view(), template.deep_view(), i as nat),
        decreases n - i,
    {
        record.insert(template[i].clone(), row[i].clone());
        i += 1;
    }
    record
}

/// Maps each row onto the names of a template.
pub fn map_rows(rows: &Vec<Vec<String>>, template: &Vec<String>) -> (records: Vec<Record>)
    ensures
        records.len() == rows.len(),
        forall|i: int|
            0 <= i < rows.len() ==> (#[trigger] records[i]).entries() == zip(
                rows[i].deep_view(),
                template.deep_view(),
            ),
{
    let mut records: Vec<Record> = Vec::new();
    let mut i: usize = 0;
    while i < rows.len()
        invariant
            i <= rows.len(),
            records.len() == i,
            forall|j: int|
                0 <= j < i ==> (#[trigger] records[j]).entries() == zip(
                    rows[j].deep_view(),
                    template.deep_view(),
                ),
        decreases rows.len() - i,
    {
        records.push(map_row(&rows[i], template));
        i += 1;
    }
    records
}

} // verus!
