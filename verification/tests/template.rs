use inlay::files::{encode_inputs, plan_outputs, Outputs, PlanError};
use inlay::rows::{collect_records, columns_text, has_row_headers, header_text, read_headers, read_records, rows_text, same_text};
use inlay::template::{summary, Template, TemplateError};
use inlay::types::{BitSize, Endianness, Field, FieldType, HasNumBits, Value};

fn strings(items: &[&str]) -> Vec<String> {
    items.iter().map(|item| item.to_string()).collect()
}

#[test]
fn template_new_keeps_its_parts() {
    let template = Template::new(FieldType::u8(Endianness::Big), "speed".to_string());
    assert_eq!(template, Template { typ: FieldType::Uint(8, Endianness::Big, BitSize::Bits8), description: "speed".to_string() });
    assert_eq!(template.num_bits(), 8);
    assert_eq!(vec![template.clone(), Template::new(FieldType::Double(Endianness::Big), "x".to_string())].num_bits(), 72);
}

#[test]
fn templates_are_read_from_text() {
    let text = b"type,description\nuint8_be,first\nint12_le:16,second\nfloat_be,\"third, quoted\"\n";
    assert_eq!(
        Template::read_templates(text),
        Ok(vec![
            Template::new(FieldType::Uint(8, Endianness::Big, BitSize::Bits8), "first".to_string()),
            Template::new(FieldType::Int(12, Endianness::Little, BitSize::Bits16), "second".to_string()),
            Template::new(FieldType::Float(Endianness::Big), "third, quoted".to_string()),
        ])
    );
    assert_eq!(Template::read_templates(b"type,description\n"), Ok(Vec::new()));
    assert_eq!(Template::read_templates(b""), Ok(Vec::new()));
}

#[test]
fn a_bad_type_is_reported_with_its_line() {
    let text = b"type,description\nuint8_be,first\nuint8,second\nuint8_le,third\n";
    assert_eq!(Template::read_templates(text), Err(TemplateError::LineNumber(3)));
    assert_eq!(Template::read_templates(b"type,description\nfloat32_be,x\n"), Err(TemplateError::LineNumber(2)));
}

#[test]
fn a_bad_record_is_reported_with_its_line() {
    let text = b"type,description\nuint8_be,first\nuint8_be,second,extra\n";
    assert_eq!(Template::read_templates(text), Err(TemplateError::RecordError(3)));
    let text = b"type\nuint8_be\n";
    assert_eq!(Template::read_templates(text), Err(TemplateError::RecordError(2)));
    let text = b"type,description\nuint8_be,\xff\xfe\n";
    assert_eq!(Template::read_templates(text), Err(TemplateError::RecordError(2)));
}

#[test]
fn from_records_stops_at_the_first_error() {
    let records = vec![
        Some(strings(&["uint8_be", "a"])),
        None,
        Some(strings(&["nothing", "b"])),
    ];
    assert_eq!(Template::from_records(&records), Err(TemplateError::RecordError(3)));
    let records = vec![
        Some(strings(&["uint8_be", "a"])),
        Some(strings(&["nothing", "b"])),
        None,
    ];
    assert_eq!(Template::from_records(&records), Err(TemplateError::LineNumber(3)));
    let records = vec![Some(strings(&["uint8_be", "a", "more"]))];
    assert_eq!(Template::from_records(&records), Ok(vec![Template::new(FieldType::u8(Endianness::Big), "a".to_string())]));
}

#[test]
fn records_are_read_without_the_header() {
    let text = b"type,description,value\nuint8_be,a,1\nuint8_be,\"b,c\",2\n";
    assert_eq!(
        read_records(text),
        Some(vec![strings(&["uint8_be", "a", "1"]), strings(&["uint8_be", "b,c", "2"])])
    );
    assert_eq!(read_headers(text), Some(strings(&["type", "description", "value"])));
    assert_eq!(read_records(b"a,b\n1,2\n3\n"), None);
    assert_eq!(read_records(b""), Some(Vec::new()));
    assert_eq!(read_headers(b""), Some(Vec::new()));
    assert_eq!(read_headers(b"\xff,b\n"), None);
}

#[test]
fn collect_records_wants_every_record() {
    assert_eq!(collect_records(&vec![Some(strings(&["a"])), Some(strings(&["b", "c"]))]), Some(vec![strings(&["a"]), strings(&["b", "c"])]));
    assert_eq!(collect_records(&vec![Some(strings(&["a"])), None]), None);
    assert_eq!(collect_records(&Vec::new()), Some(Vec::new()));
}

#[test]
fn row_headers_are_value_description_and_typ() {
    assert!(has_row_headers(&strings(&["typ", "description", "value"])));
    assert!(has_row_headers(&strings(&["value", "x", "typ", "description"])));
    assert!(!has_row_headers(&strings(&["type", "description", "value"])));
    assert!(!has_row_headers(&strings(&["typ", "description"])));
    assert!(!has_row_headers(&Vec::new()));
    assert!(same_text("typ", "typ"));
    assert!(!same_text("typ", "type"));
    assert!(!same_text("typ", "tyq"));
}

#[test]
fn the_header_names_columns_or_descriptions() {
    let templates = vec![
        Template::new(FieldType::u8(Endianness::Big), "first".to_string()),
        Template::new(FieldType::u8(Endianness::Big), "second".to_string()),
        Template::new(FieldType::u8(Endianness::Big), "third".to_string()),
    ];
    assert_eq!(header_text(&templates, true), "type,description,value\n");
    assert_eq!(header_text(&templates, false), "first,second,third\n");
    assert_eq!(header_text(&templates[..1].to_vec(), false), "first\n");
    assert_eq!(header_text(&Vec::new(), false), "\n");
}

#[test]
fn rows_and_columns_are_written() {
    let fields = vec![
        Field::u8(1, Endianness::Big, "first".to_string()),
        Field { value: Value::Int8(-2), typ: FieldType::Int(4, Endianness::Little, BitSize::Bits8), description: "second".to_string() },
        Field::float(0x3fc0_0000, Endianness::Big, "third".to_string()),
    ];
    let values = strings(&["1", "-2", "1.5"]);
    assert_eq!(rows_text(&fields, &values), "uint8_be,first,1\nint4_le:8,second,-2\nfloat_be,third,1.5\n");
    assert_eq!(rows_text(&fields, &values[..2].to_vec()), "uint8_be,first,1\nint4_le:8,second,-2\n");
    assert_eq!(rows_text(&Vec::new(), &values), "");
    assert_eq!(columns_text(&values), "1,-2,1.5\n");
    assert_eq!(columns_text(&values[..1].to_vec()), "1\n");
    assert_eq!(columns_text(&Vec::new()), "\n");
}

#[test]
fn the_summary_lists_sizes_and_offsets() {
    let templates = vec![
        Template::new(FieldType::Uint(4, Endianness::Big, BitSize::Bits16), "a".to_string()),
        Template::new(FieldType::Uint(12, Endianness::Big, BitSize::Bits16), "b".to_string()),
        Template::new(FieldType::Double(Endianness::Little), "c".to_string()),
    ];
    assert_eq!(
        summary(&templates),
        "type,description,size bytes,size bits,byte offset, bit offset\n\
         uint4_be:16,a,0,4,0,0\n\
         uint12_be:16,b,1,12,0,4\n\
         double_le,c,8,64,2,16\n"
    );
    assert_eq!(summary(&Vec::new()), "type,description,size bytes,size bits,byte offset, bit offset\n");
}

#[test]
fn an_encoding_run_of_rows_reads_the_template_file_where_no_file_is_given() {
    let template = "layout.csv".to_string();
    assert_eq!(encode_inputs(Vec::new(), &template, true), strings(&["layout.csv"]));
    assert_eq!(encode_inputs(Vec::new(), &template, false), Vec::<String>::new());
    assert_eq!(encode_inputs(strings(&["a.csv"]), &template, true), strings(&["a.csv"]));
    assert_eq!(encode_inputs(strings(&["a.csv", "b.csv"]), &template, false), strings(&["a.csv", "b.csv"]));
}

#[test]
fn outputs_are_one_file_or_one_per_input() {
    let none = String::new();
    let out = "out.bin".to_string();
    assert_eq!(plan_outputs(&Vec::new(), 0, &none, ".bin"), Err(PlanError::NoInput));
    assert_eq!(plan_outputs(&Vec::new(), 0, &out, ".bin"), Err(PlanError::NoInput));
    assert_eq!(plan_outputs(&strings(&["a", "b"]), 2, &out, ".bin"), Err(PlanError::OneOutputForMany));
    assert_eq!(plan_outputs(&strings(&["a"]), 1, &out, ".bin"), Ok(Outputs::Single(out.clone())));
    assert_eq!(plan_outputs(&strings(&["layout.csv"]), 0, &out, ".bin"), Ok(Outputs::Single(out.clone())));
    assert_eq!(
        plan_outputs(&strings(&["a", "b.dat"]), 2, &none, ".csv"),
        Ok(Outputs::PerInput(strings(&["a.csv", "b.dat.csv"])))
    );
    assert_eq!(plan_outputs(&strings(&["a"]), 1, &none, ".bin"), Ok(Outputs::PerInput(strings(&["a.bin"]))));
}

#[test]
fn errors_have_messages() {
    assert_eq!(TemplateError::LineNumber(3).to_string(), "Error parsing template line 3");
    assert_eq!(TemplateError::RecordError(12).to_string(), "Error reading record on line 12");
}
