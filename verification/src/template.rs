//! Record layouts: an ordered list of typed, named entries.

use vstd::prelude::*;
use vstd::string::*;
use crate::descriptor::{descriptor, parse_descriptor, parse_type};
use crate::rows::{csv_read_records, csv_records};
use crate::text::{decimal, push_decimal};
use crate::types::{lemma_total_bits_prefix, total_bits, FieldType, HasNumBits, NumBits};

verus! {

/// What it takes to decode one field: its type and what it is.
#[derive(Eq, PartialEq, Debug, Clone)]
pub struct Template {
    pub typ: FieldType,
    pub description: String,
}

impl HasNumBits for Template {
    open spec fn bit_count(&self) -> nat {
        self.typ.spec_num_bits() as nat
    }

    fn num_bits(&self) -> (num_bits: NumBits) {
        self.typ.num_bits()
    }
}

/// Why a list of template entries could not be read, with the line it
/// happened on.
#[derive(Eq, PartialEq, Debug, Clone)]
pub enum TemplateError {
    /// The type on this line is no type descriptor.
    LineNumber(usize),
    /// The record on this line could not be read.
    RecordError(usize),
}

/// The number of the line that holds the record `index`: the header is
/// line 1, the first record line 2.
pub open spec fn line_of(index: int) -> usize {
    if index + 2 <= usize::MAX {
        (index + 2) as usize
    } else {
        usize::MAX
    }
}

/// The entries that the records from `index` on spell, each as its type and
/// its description; or the first error, with its line.
pub open spec fn spec_templates(records: Seq<Option<Seq<Seq<char>>>>, index: int) -> Result<
    Seq<(FieldType, Seq<char>)>,
    TemplateError,
>
    decreases records.len() - index,
{
    if index < 0 || index >= records.len() {
        Ok(Seq::empty())
    } else {
        match records[index] {
            None => Err(TemplateError::RecordError(line_of(index))),
            Some(record) => {
                if record.len() < 2 {
                    Err(TemplateError::RecordError(line_of(index)))
                } else {
                    match parse_descriptor(record[0]) {
                        None => Err(TemplateError::LineNumber(line_of(index))),
                        Some(typ) => match spec_templates(records, index + 1) {
                            Err(error) => Err(error),
                            Ok(rest) => Ok(seq![(typ, record[1])] + rest),
                        },
                    }
                }
            },
        }
    }
}

/// The entries as pairs of type and description.
pub open spec fn entries(templates: Seq<Template>) -> Seq<(FieldType, Seq<char>)> {
    templates.map_values(|t: Template| (t.typ, t.description@))
}

/// The first line of a summary.
pub open spec fn summary_header() -> Seq<char> {
    "type,description,size bytes,size bits,byte offset, bit offset\n"@
}

/// One line of a summary: the entry, its size in bytes and in bits, and its
/// offset in bytes and in bits.
pub open spec fn summary_line(template: Template, offset: nat) -> Seq<char> {
    let bits = template.typ.spec_num_bits() as nat;
    descriptor(template.typ) + ","@ + template.description@ + ","@ + decimal(bits / 8) + ","@ + decimal(bits)
        + ","@ + decimal(offset / 8) + ","@ + decimal(offset) + "\n"@
}

/// The summary lines of the first `n` entries.
pub open spec fn summary_lines(templates: Seq<Template>, n: int) -> Seq<char>
    decreases n,
{
    if n <= 0 {
        Seq::empty()
    } else {
        summary_lines(templates, n - 1) + summary_line(templates[n - 1], total_bits(templates.take(n - 1)))
    }
}

/// The message of an error.
pub open spec fn error_text(error: TemplateError) -> Seq<char> {
    match error {
        TemplateError::LineNumber(line_number) => "Error parsing template line "@ + decimal(line_number as nat),
        TemplateError::RecordError(line_number) => "Error reading record on line "@ + decimal(line_number as nat),
    }
}

impl TemplateError {
    /// The message of the error, with its line.
    pub fn to_string(&self) -> (text: String)
        ensures
            text@ == error_text(*self),
    {
        match self {
            TemplateError::LineNumber(line_number) => {
                let mut text = String::from_str("Error parsing template line ");
                push_decimal(&mut text, *line_number as u64);
                text
            },
            TemplateError::RecordError(line_number) => {
                let mut text = String::from_str("Error reading record on line ");
                push_decimal(&mut text, *line_number as u64);
                text
            },
        }
    }
}

impl Template {
    pub fn new(typ: FieldType, descr: String) -> (template: Template)
        ensures
            template == (Template { typ: typ, description: descr }),
    {
        Template { typ: typ, description: descr }
    }

    /// The entries that the records spell: the type in the first place, the
    /// description in the second. Fails at the first record that is missing
    /// or shorter, and at the first type that is no descriptor.
    pub fn from_records(records: &Vec<Option<Vec<String>>>) -> (r: Result<Vec<Template>, TemplateError>)
        ensures
            match spec_templates(records.deep_view(), 0) {
                Ok(pairs) => r matches Ok(templates) && entries(templates@) == pairs,
                Err(error) => r == Err::<Vec<Template>, TemplateError>(error),
            },
    {
        let mut templates: Vec<Template> = Vec::new();
        let ghost all = records.deep_view();
        let ghost whole = spec_templates(all, 0);
        let mut index: usize = 0;
        while index < records.len()
            invariant
                index <= records.len(),
                all == records.deep_view(),
                whole == spec_templates(all, 0),
                whole == match spec_templates(all, index as int) {
                    Ok(rest) => Ok::<Seq<(FieldType, Seq<char>)>, TemplateError>(entries(templates@) + rest),
                    Err(error) => Err(error),
                },
            decreases records.len() - index,
        {
            let line_number: usize = if index <= usize::MAX - 2 {
                index + 2
            } else {
                usize::MAX
            };
            let ghost before = entries(templates@);
            assert(all[index as int] == records[index as int].deep_view());
            match &records[index] {
                None => {
                    return Err(TemplateError::RecordError(line_number));
                },
                Some(record) => {
                    if record.len() < 2 {
                        return Err(TemplateError::RecordError(line_number));
                    }
                    assert(record.deep_view()[0] == record[0]@);
                    assert(record.deep_view()[1] == record[1]@);
                    match parse_type(record[0].as_str()) {
                        Err(_) => {
                            return Err(TemplateError::LineNumber(line_number));
                        },
                        Ok(typ) => {
                            let template = Template { typ: typ, description: record[1].clone() };
                            proof {
                                match spec_templates(all, index + 1) {
                                    Ok(rest) => {
                                        assert(before + (seq![(typ, record[1]@)] + rest) =~= before.push(
                                            (typ, record[1]@),
                                        ) + rest);
                                    },
                                    Err(_) => {},
                                }
                                assert(entries(templates@.push(template)) =~= before.push((typ, record[1]@)));
                            }
                            templates.push(template);
                        },
                    }
                },
            }
            index = index + 1;
        }
        proof {
            assert(entries(templates@) + Seq::<(FieldType, Seq<char>)>::empty() =~= entries(templates@));
        }
        Ok(templates)
    }

    /// Reads the entries of a record layout from the text of a file of
    /// comma-separated values with a header row.
    pub fn read_templates(text: &[u8]) -> (r: Result<Vec<Template>, TemplateError>)
        ensures
            match spec_templates(csv_records(text@), 0) {
                Ok(pairs) => r matches Ok(templates) && entries(templates@) == pairs,
                Err(error) => r == Err::<Vec<Template>, TemplateError>(error),
            },
    {
        let records: Vec<Option<Vec<String>>> = csv_read_records(text);
        Template::from_records(&records)
    }
}

fn summary_line_text(template: &Template, offset_bits: usize) -> (line: String)
    ensures
        line@ == summary_line(*template, offset_bits as nat),
{
    let num_bits: usize = template.typ.num_bits();
    let mut line: String = template.typ.to_string();
    line.append(",");
    line.append(template.description.as_str());
    line.append(",");
    let ghost head = descriptor(template.typ) + ","@ + template.description@ + ","@;
    assert(line@ =~= head);
    push_decimal(&mut line, (num_bits / 8) as u64);
    line.append(",");
    let ghost sized = head + decimal((num_bits / 8) as nat) + ","@;
    assert(line@ =~= sized);
    push_decimal(&mut line, num_bits as u64);
    line.append(",");
    let ghost counted = sized + decimal(num_bits as nat) + ","@;
    assert(line@ =~= counted);
    push_decimal(&mut line, (offset_bits / 8) as u64);
    line.append(",");
    let ghost placed = counted + decimal((offset_bits / 8) as nat) + ","@;
    assert(line@ =~= placed);
    push_decimal(&mut line, offset_bits as u64);
    line.append("\n");
    assert(line@ =~= placed + decimal(offset_bits as nat) + "\n"@);
    line
}

/// The summary of a record layout: for each entry its type and description,
/// its size and its offset from the start of the record.
pub fn summary(templates: &Vec<Template>) -> (text: String)
    requires
        total_bits(templates@) <= usize::MAX,
    ensures
        text@ == summary_header() + summary_lines(templates@, templates@.len() as int),
{
    let mut text = String::from_str("type,description,size bytes,size bits,byte offset, bit offset\n");
    let mut offset_bits: usize = 0;
    let mut index: usize = 0;
    proof {
        assert(summary_header() + summary_lines(templates@, 0) =~= summary_header());
    }
    while index < templates.len()
        invariant
            index <= templates.len(),
            total_bits(templates@) <= usize::MAX,
            offset_bits == total_bits(templates@.take(index as int)),
            text@ == summary_header() + summary_lines(templates@, index as int),
        decreases templates.len() - index,
    {
        let ghost lines = summary_lines(templates@, index as int);
        let line: String = summary_line_text(&templates[index], offset_bits);
        proof {
            lemma_total_bits_prefix(templates@, index + 1);
            assert(templates@.take(index + 1).drop_last() =~= templates@.take(index as int));
            assert((summary_header() + lines) + line@ =~= summary_header() + (lines + line@));
        }
        text.append(line.as_str());
        offset_bits = offset_bits + templates[index].typ.num_bits();
        index = index + 1;
    }
    text
}

} // verus!
