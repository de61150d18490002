//! Records as rows of text: reading comma-separated values, and writing the
//! rows and columns of decoded fields.

use vstd::prelude::*;
use vstd::string::*;
use crate::descriptor::record_row;
use crate::template::Template;
use crate::types::Field;

verus! {

/// The records that the `csv` crate reads from `text` with its default
/// settings, the header row left out. `None` stands for a record that it
/// could not read.
pub uninterp spec fn csv_records(text: Seq<u8>) -> Seq<Option<Seq<Seq<char>>>>;

/// The header row that the `csv` crate reads from `text` with its default
/// settings, or `None` where it could not read it.
pub uninterp spec fn csv_headers(text: Seq<u8>) -> Option<Seq<Seq<char>>>;

/// `csv::Reader::records` on a reader over `text`: every record that the
/// iterator yields, in order, each with its fields as strings, or `None` in
/// place of a record for which it yields an error.
#[verifier::external_body]
pub(crate) fn csv_read_records(text: &[u8]) -> (records: Vec<Option<Vec<String>>>)
    ensures
        records.deep_view() == csv_records(text@),
{
    let mut reader = csv::Reader::from_reader(text);
    reader.records().map(
        |record| record.ok().map(|fields| fields.iter().map(|field| field.to_string()).collect()),
    ).collect()
}

/// `csv::Reader::headers` on a reader over `text`: the fields of the first
/// row as strings, or `None` where the call returns an error.
#[verifier::external_body]
fn csv_read_headers(text: &[u8]) -> (headers: Option<Vec<String>>)
    ensures
        headers.deep_view() == csv_headers(text@),
{
    let mut reader = csv::Reader::from_reader(text);
    reader.headers().ok().map(|fields| fields.iter().map(|field| field.to_string()).collect())
}

/// All the records, where every one of them could be read.
pub open spec fn all_records(records: Seq<Option<Seq<Seq<char>>>>) -> Option<Seq<Seq<Seq<char>>>> {
    if forall|i: int| 0 <= i < records.len() ==> (#[trigger] records[i]) is Some {
        Some(Seq::new(records.len(), |i: int| records[i]->Some_0))
    } else {
        None
    }
}

/// Whether `name` is among `headers`.
pub open spec fn names(headers: Seq<Seq<char>>, name: Seq<char>) -> bool {
    exists|i: int| 0 <= i < headers.len() && #[trigger] headers[i] == name
}

/// The items of `items` with `separator` between them.
pub open spec fn joined(items: Seq<Seq<char>>, separator: Seq<char>) -> Seq<char>
    decreases items.len(),
{
    if items.len() == 0 {
        Seq::empty()
    } else if items.len() == 1 {
        items[0]
    } else {
        joined(items.drop_last(), separator) + separator + items.last()
    }
}

/// The rows of the first `n` fields, each with the text of its value and a
/// line feed at its end.
pub open spec fn rows_of(fields: Seq<Field>, values: Seq<Seq<char>>, n: int) -> Seq<char>
    decreases n,
{
    if n <= 0 {
        Seq::empty()
    } else {
        rows_of(fields, values, n - 1) + record_row(fields[n - 1].typ, fields[n - 1].description@, values[n - 1])
            + "\n"@
    }
}

/// The descriptions of the entries.
pub open spec fn descriptions(templates: Seq<Template>) -> Seq<Seq<char>> {
    templates.map_values(|t: Template| t.description@)
}

/// The first line of the output: the three column names of a file of rows,
/// or the descriptions of the entries of a file of columns.
pub open spec fn spec_header_text(templates: Seq<Template>, rows: bool) -> Seq<char> {
    if rows {
        "type,description,value\n"@
    } else {
        joined(descriptions(templates), ","@) + "\n"@
    }
}

/// The views of the strings.
pub open spec fn texts(values: Seq<String>) -> Seq<Seq<char>> {
    values.map_values(|s: String| s@)
}

/// The records of `text`, the header row left out. Fails where one of them
/// cannot be read.
pub fn read_records(text: &[u8]) -> (r: Option<Vec<Vec<String>>>)
    ensures
        r.deep_view() == all_records(csv_records(text@)),
{
    let records: Vec<Option<Vec<String>>> = csv_read_records(text);
    collect_records(&records)
}

fn copy_record(record: &Vec<String>) -> (copy: Vec<String>)
    ensures
        copy@ == record@,
{
    let mut copy: Vec<String> = Vec::new();
    let mut index: usize = 0;
    while index < record.len()
        invariant
            index <= record.len(),
            copy@ == record@.take(index as int),
        decreases record.len() - index,
    {
        copy.push(record[index].clone());
        assert(record@.take(index + 1) =~= record@.take(index as int).push(record@[index as int]));
        index = index + 1;
    }
    assert(record@.take(index as int) =~= record@);
    copy
}

/// All the records of `records`, where none of them is missing.
pub fn collect_records(records: &Vec<Option<Vec<String>>>) -> (r: Option<Vec<Vec<String>>>)
    ensures
        r.deep_view() == all_records(records.deep_view()),
{
    let ghost all = records.deep_view();
    let mut out: Vec<Vec<String>> = Vec::new();
    let mut index: usize = 0;
    while index < records.len()
        invariant
            index <= records.len(),
            all == records.deep_view(),
            out.len() == index,
            forall|i: int| 0 <= i < index ==> (#[trigger] all[i]) is Some && out[i].deep_view() == all[i]->Some_0,
        decreases records.len() - index,
    {
        assert(all[index as int] == records[index as int].deep_view());
        match &records[index] {
            Some(record) => {
                let copy: Vec<String> = copy_record(record);
                assert(copy.deep_view() =~= record.deep_view());
                out.push(copy);
            },
            None => {
                assert(all[index as int] is None);
                return None;
            },
        }
        index = index + 1;
    }
    proof {
        assert(out.deep_view() =~= all_records(all)->Some_0);
    }
    Some(out)
}

/// The header row of `text`. Fails where it cannot be read.
pub fn read_headers(text: &[u8]) -> (r: Option<Vec<String>>)
    ensures
        r.deep_view() == csv_headers(text@),
{
    csv_read_headers(text)
}

fn has_name(headers: &Vec<String>, name: &str) -> (found: bool)
    ensures
        found == names(headers.deep_view(), name@),
{
    let mut index: usize = 0;
    while index < headers.len()
        invariant
            index <= headers.len(),
            forall|i: int| 0 <= i < index ==> #[trigger] headers.deep_view()[i] != name@,
        decreases headers.len() - index,
    {
        if same_text(headers[index].as_str(), name) {
            assert(headers.deep_view()[index as int] == name@);
            return true;
        }
        index = index + 1;
    }
    false
}

/// Whether two strings hold the same characters.
pub fn same_text(a: &str, b: &str) -> (same: bool)
    ensures
        same == (a@ == b@),
{
    let len: usize = a.unicode_len();
    if len != b.unicode_len() {
        return false;
    }
    let mut index: usize = 0;
    while index < len
        invariant
            index <= len,
            len == a@.len(),
            len == b@.len(),
            forall|i: int| 0 <= i < index ==> a@[i] == b@[i],
        decreases len - index,
    {
        if a.get_char(index) != b.get_char(index) {
            return false;
        }
        index = index + 1;
    }
    assert(a@ =~= b@);
    true
}

/// Whether a file of rows has the three columns that a row is read from:
/// `value`, `description` and `typ`.
pub fn has_row_headers(headers: &Vec<String>) -> (complete: bool)
    ensures
        complete == (names(headers.deep_view(), "value"@) && names(headers.deep_view(), "description"@) && names(
            headers.deep_view(),
            "typ"@,
        )),
{
    has_name(headers, "value") && has_name(headers, "description") && has_name(headers, "typ")
}

/// The first line of the output.
pub fn header_text(templates: &Vec<Template>, rows: bool) -> (text: String)
    ensures
        text@ == spec_header_text(templates@, rows),
{
    if rows {
        String::from_str("type,description,value\n")
    } else {
        let mut text = String::new();
        let mut index: usize = 0;
        while index < templates.len()
            invariant
                index <= templates.len(),
                text@ == joined(descriptions(templates@.take(index as int)), ","@),
            decreases templates.len() - index,
        {
            let ghost before = descriptions(templates@.take(index as int));
            let ghost after = descriptions(templates@.take(index + 1));
            proof {
                assert(after.drop_last() =~= before);
                assert(after.last() == templates@[index as int].description@);
            }
            if index != 0 {
                text.append(",");
            } else {
                assert(Seq::<char>::empty() + templates@[index as int].description@ =~= after[0]);
            }
            text.append(templates[index].description.as_str());
            index = index + 1;
        }
        proof {
            assert(templates@.take(index as int) =~= templates@);
        }
        text.append("\n");
        text
    }
}

/// The rows of the fields, each with the text of its value, as far as both
/// lists reach.
pub fn rows_text(fields: &Vec<Field>, values: &Vec<String>) -> (text: String)
    ensures
        text@ == rows_of(
            fields@,
            texts(values@),
            if fields.len() <= values.len() {
                fields.len() as int
            } else {
                values.len() as int
            },
        ),
{
    let mut text = String::new();
    let mut index: usize = 0;
    while index < fields.len() && index < values.len()
        invariant
            index <= fields.len(),
            index <= values.len(),
            text@ == rows_of(fields@, texts(values@), index as int),
        decreases fields.len() - index,
    {
        let row: String = fields[index].record_with(values[index].as_str());
        text.append(row.as_str());
        text.append("\n");
        proof {
            assert(texts(values@)[index as int] == values@[index as int]@);
        }
        index = index + 1;
    }
    text
}

/// One line of a file of columns: the texts of the values with commas between
/// them and a line feed at the end.
pub fn columns_text(values: &Vec<String>) -> (text: String)
    ensures
        text@ == joined(texts(values@), ","@) + "\n"@,
{
    let mut text = String::new();
    let mut index: usize = 0;
    while index < values.len()
        invariant
            index <= values.len(),
            text@ == joined(texts(values@.take(index as int)), ","@),
        decreases values.len() - index,
    {
        let ghost before = texts(values@.take(index as int));
        let ghost after = texts(values@.take(index + 1));
        proof {
            assert(after.drop_last() =~= before);
            assert(after.last() == values@[index as int]@);
        }
        if index != 0 {
            text.append(",");
        } else {
            assert(Seq::<char>::empty() + values@[index as int]@ =~= after[0]);
        }
        text.append(values[index].as_str());
        index = index + 1;
    }
    proof {
        assert(values@.take(index as int) =~= values@);
    }
    text.append("\n");
    text
}

} // verus!
