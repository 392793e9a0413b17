use bill_unify::cell::column_index;
use bill_unify::cell::lookup;
use bill_unify::cell::Cell;
use bill_unify::cell::RawTable;
use bill_unify::cell::TimeUnit;
use bill_unify::conf::Config;
use bill_unify::conf::Entity;
use bill_unify::conf::Time;
use bill_unify::conf::Trans;
use bill_unify::datetime::coalesce_time;
use bill_unify::datetime::is_plain_format;
use bill_unify::datetime::parse_time;
use bill_unify::datetime::resolve_time;
use bill_unify::error::Error;
use bill_unify::reader::fmt_df;
use bill_unify::reader::gen_column;
use bill_unify::reader::gen_schema;
use bill_unify::reader::project_row;
use bill_unify::reader::DataType;

fn names(list: &[&str]) -> Vec<String> {
    list.iter().map(|s| s.to_string()).collect()
}

fn text(s: &str) -> Cell {
    Cell::Str(s.to_string())
}

fn bank_header() -> Vec<String> {
    names(&["交易时间", "金额", "查询账号", "查询账号姓名", "对方账号卡号", "对方账号姓名", "借贷标志"])
}

fn bank_row(direction: Cell) -> Vec<Cell> {
    vec![
        text("20240101120000"),
        text("100.00"),
        text("A1"),
        text("张三"),
        text("B2"),
        text("李四"),
        direction,
    ]
}

#[test]
fn bank_statement_row_with_the_outbound_marker() {
    let header = bank_header();
    let config = Config::auto_detect(&header).unwrap();
    assert_eq!(config.name, "国反-银行");
    let table = RawTable { header, rows: vec![bank_row(text("借"))] };
    let rows = fmt_df(&table, "tmp/batch/a.xlsx", &config).unwrap();
    assert_eq!(rows.len(), 1);
    let row = &rows[0];
    assert_eq!(row.config_name, "国反-银行");
    assert_eq!(row.datetime, Some(1704110400000));
    assert_eq!(row.amount, Some(10000));
    assert_eq!(row.from_id, text("A1"));
    assert_eq!(row.from_bank_id, text("A1"));
    assert_eq!(row.from_name, text("张三"));
    assert_eq!(row.to_id, text("B2"));
    assert_eq!(row.to_bank_id, text("B2"));
    assert_eq!(row.to_name, text("李四"));
    assert_eq!(row.file_path, "tmp/batch/a.xlsx");
}

#[test]
fn bank_statement_row_with_another_direction_is_reversed() {
    let header = bank_header();
    let config = Config::auto_detect(&header).unwrap();
    let table = RawTable { header, rows: vec![bank_row(text("贷"))] };
    let rows = fmt_df(&table, "p", &config).unwrap();
    let row = &rows[0];
    assert_eq!(row.from_id, text("B2"));
    assert_eq!(row.from_name, text("李四"));
    assert_eq!(row.to_id, text("A1"));
    assert_eq!(row.to_name, text("张三"));
    assert_eq!(row.amount, Some(10000));
    assert_eq!(row.datetime, Some(1704110400000));
}

#[test]
fn any_direction_but_the_marker_is_inbound() {
    let header = bank_header();
    let config = Config::gf_bank();
    for direction in [Cell::Null, Cell::Int(1), text(""), text("借 "), text("出"), Cell::Bool(true)] {
        let row = project_row(&config, "p", &header, &bank_row(direction), None);
        assert_eq!(row.from_id, text("B2"));
        assert_eq!(row.to_id, text("A1"));
    }
    let row = project_row(&config, "p", &header, &bank_row(text("借")), Some(7));
    assert_eq!(row.from_id, text("A1"));
    assert_eq!(row.to_id, text("B2"));
    assert_eq!(row.datetime, Some(7));
}

#[test]
fn the_prime_flag_does_not_change_the_sides() {
    let make = |one_is_prime: bool| Config {
        name: "t",
        col_id: None,
        time: Time { col: "t", fmt: "%Y", fmt_alter: None },
        trans: Trans::Directed {
            col_amount: "a",
            one: Entity { col_id: "x", col_id_alter: None, col_bank_id: None, col_name: None },
            other: Entity { col_id: "y", col_id_alter: None, col_bank_id: None, col_name: None },
            col_direct: "d",
            value_out: "out",
            one_is_prime,
        },
    };
    let header = names(&["t", "a", "x", "y", "d"]);
    let row = vec![text("2024"), Cell::Int(3), text("X"), text("Y"), text("out")];
    for flag in [true, false] {
        let got = project_row(&make(flag), "p", &header, &row, None);
        assert_eq!(got.from_id, text("X"));
        assert_eq!(got.to_id, text("Y"));
        assert_eq!(got.from_bank_id, Cell::Null);
        assert_eq!(got.from_name, Cell::Null);
        assert_eq!(got.to_bank_id, Cell::Null);
        assert_eq!(got.to_name, Cell::Null);
        assert_eq!(got.amount, Some(300));
    }
}

#[test]
fn simple_shape_has_fixed_sides_and_an_alternate_id() {
    let config = Config::gf_3();
    let header = names(&[
        "交易时间",
        "交易金额",
        "付款方的支付帐号",
        "付款方银行卡所属银行卡号",
        "收款方的支付帐号",
        "收款方的商户名称",
        "收款方的商户号",
        "收款方银行卡所属银行卡号",
        "支付帐号",
        "支付订单号",
    ]);
    assert_eq!(Config::auto_detect(&header).unwrap().name, "国反-三方");
    let rows = vec![
        vec![
            text("20240102"),
            Cell::Float((-12.5f64).to_bits()),
            text("P"),
            text("PB"),
            Cell::Null,
            text("店"),
            text("M9"),
            Cell::Null,
            text("P"),
            text("o1"),
        ],
        vec![
            text("20240102"),
            Cell::Int(7),
            text("P"),
            text("PB"),
            text("Q"),
            text("店"),
            text("M9"),
            text("QB"),
            text("P"),
            text("o2"),
        ],
        vec![
            text("x"),
            text("1"),
            text("PX"),
            Cell::Null,
            text("QX"),
            Cell::Null,
            Cell::Null,
            Cell::Null,
            Cell::Null,
            text("o1"),
        ],
    ];
    let got = fmt_df(&RawTable { header, rows }, "f.csv", &config).unwrap();
    assert_eq!(got.len(), 2);
    assert_eq!(got[0].datetime, Some(1704153600000));
    assert_eq!(got[0].amount, Some(1250));
    assert_eq!(got[0].from_id, text("P"));
    assert_eq!(got[0].from_bank_id, text("PB"));
    assert_eq!(got[0].from_name, Cell::Null);
    assert_eq!(got[0].to_id, text("M9"));
    assert_eq!(got[0].to_bank_id, Cell::Null);
    assert_eq!(got[0].to_name, text("店"));
    assert_eq!(got[1].to_id, text("Q"));
    assert_eq!(got[1].amount, Some(700));
    assert_eq!(got[1].config_name, "国反-三方");
    assert_eq!(got[1].file_path, "f.csv");
}

fn jz_header() -> Vec<String> {
    names(&["交易时间", "金额", "查询账号", "对方账号卡号", "对方账号姓名", "借贷标志"])
}

fn jz_row(id: &str) -> Vec<Cell> {
    vec![text("20240101120000"), text("100.00"), text(id), text("B2"), text("李四"), text("借")]
}

#[test]
fn rows_sharing_the_key_column_collapse_to_the_first() {
    let config = Config::jz();
    let mut header = jz_header();
    header.push("交易流水号".to_string());
    assert_eq!(Config::auto_detect(&header).unwrap().name, "经侦");
    let mut rows = Vec::new();
    for (id, key) in [("A", "k1"), ("B", "k2"), ("C", "k1"), ("D", "k3"), ("E", "k2")] {
        let mut row = jz_row(id);
        row.push(text(key));
        rows.push(row);
    }
    let mut null_key = jz_row("A1");
    null_key.push(Cell::Null);
    rows.push(null_key);
    rows.push(jz_row("A2"));
    let mut number_key = jz_row("A3");
    number_key.push(Cell::Int(1));
    rows.push(number_key);
    let mut text_key = jz_row("A4");
    text_key.push(text("1"));
    rows.push(text_key);
    let got = fmt_df(&RawTable { header, rows }, "p", &config).unwrap();
    let ids: Vec<&Cell> = got.iter().map(|r| &r.from_id).collect();
    assert_eq!(ids, vec![&text("A"), &text("B"), &text("D"), &text("A1"), &text("A3"), &text("A4")]);
    assert_eq!(got[0].from_name, Cell::Null);
    assert_eq!(got[0].to_name, text("李四"));
}

#[test]
fn a_layout_paired_with_a_foreign_header_is_refused() {
    let table = RawTable { header: names(&["交易时间", "金额"]), rows: vec![] };
    assert_eq!(fmt_df(&table, "p", &Config::gf_bank()), Err(Error::LayoutMismatch));
    let table = RawTable { header: bank_header(), rows: vec![bank_row(text("借"))] };
    assert_eq!(fmt_df(&table, "p", &Config::qq()), Err(Error::LayoutMismatch));
}

#[test]
fn a_layout_that_detection_would_not_give_is_refused() {
    let table = RawTable { header: bank_header(), rows: vec![bank_row(text("借"))] };
    assert!(Config::jz().check(&table.header));
    assert_eq!(fmt_df(&table, "p", &Config::jz()), Err(Error::LayoutMismatch));
    let mut renamed = Config::gf_bank();
    renamed.name = "other";
    assert_eq!(fmt_df(&table, "p", &renamed), Err(Error::LayoutMismatch));
    assert!(fmt_df(&table, "p", &Config::gf_bank()).is_ok());
}

#[test]
fn layouts_compare_by_what_they_say() {
    for (i, a) in Config::all().iter().enumerate() {
        for (j, b) in Config::all().iter().enumerate() {
            assert_eq!(a.same(b), i == j);
        }
    }
    let mut changed = Config::gf_3();
    changed.col_id = None;
    assert!(!changed.same(&Config::gf_3()));
    let mut changed = Config::gf_3();
    changed.time.fmt_alter = None;
    assert!(!changed.same(&Config::gf_3()));
    assert!(Config::gf_3().trans.same(&Config::gf_3().trans));
    assert!(!Config::gf_3().trans.same(&Config::qq().trans));
    assert!(!Config::gf_3().trans.same(&Config::jz().trans));
}

#[test]
fn a_missing_key_column_is_refused() {
    let table = RawTable { header: jz_header(), rows: vec![jz_row("A")] };
    assert_eq!(fmt_df(&table, "p", &Config::jz()), Err(Error::MissingColumn("交易流水号")));
}

#[test]
fn a_table_without_rows_gives_no_rows() {
    let table = RawTable { header: bank_header(), rows: vec![] };
    assert_eq!(fmt_df(&table, "p", &Config::gf_bank()), Ok(vec![]));
}

#[test]
fn cells_that_do_not_parse_give_nulls_not_failures() {
    let header = bank_header();
    let mut row = bank_row(text("借"));
    row[0] = text("yesterday");
    row[1] = text("a lot");
    let short = vec![text("20240101120000")];
    let got = fmt_df(&RawTable { header, rows: vec![row, short] }, "p", &Config::gf_bank()).unwrap();
    assert_eq!(got[0].datetime, None);
    assert_eq!(got[0].amount, None);
    assert_eq!(got[0].from_id, text("A1"));
    assert_eq!(got[1].datetime, Some(1704110400000));
    assert_eq!(got[1].amount, None);
    assert_eq!(got[1].from_id, Cell::Null);
    assert_eq!(got[1].to_id, Cell::Null);
}

#[test]
fn the_primary_time_format_is_preferred() {
    assert_eq!(coalesce_time(Some(1), Some(2)), Some(1));
    assert_eq!(coalesce_time(Some(1), None), Some(1));
    assert_eq!(coalesce_time(None, Some(2)), Some(2));
    assert_eq!(coalesce_time(None, None), None);
}

#[test]
fn time_cells_parse_under_primary_then_fallback() {
    let time = Time { col: "t", fmt: "%Y%m%d%H%M%S", fmt_alter: Some("%Y%m%d") };
    assert_eq!(resolve_time(&text("20240101120000"), &time), Some(1704110400000));
    assert_eq!(resolve_time(&text("20240101"), &time), Some(1704067200000));
    assert_eq!(resolve_time(&text("2024-01-01"), &time), None);
    assert_eq!(resolve_time(&text(""), &time), None);
    assert_eq!(resolve_time(&text("20240101120000 "), &time), None);
    assert_eq!(resolve_time(&text("202401011200"), &time), None);
    let strict = Time { col: "t", fmt: "%Y%m%d%H%M%S", fmt_alter: None };
    assert_eq!(resolve_time(&text("20240101"), &strict), None);
    let dashed = Time { col: "t", fmt: "%Y-%m-%d %H:%M:%S", fmt_alter: None };
    assert_eq!(resolve_time(&text("2024-01-01 12:00:00"), &dashed), Some(1704110400000));
    assert_eq!(resolve_time(&text("1970-01-01 00:00:01"), &dashed), Some(1000));
    assert_eq!(resolve_time(&text("1969-12-31 23:59:59"), &dashed), Some(-1000));
}

#[test]
fn both_formats_parsing_gives_the_primary_result() {
    let time = Time { col: "t", fmt: "%Y-%m-%d %H:%M:%S", fmt_alter: Some("%Y-%d-%m %H:%M:%S") };
    assert_eq!(resolve_time(&text("2024-01-02 00:00:00"), &time), Some(1704153600000));
    let swapped = Time { col: "t", fmt: "%Y-%d-%m %H:%M:%S", fmt_alter: Some("%Y-%m-%d %H:%M:%S") };
    assert_eq!(resolve_time(&text("2024-01-02 00:00:00"), &swapped), Some(1706745600000));
}

#[test]
fn only_text_cells_hold_a_time() {
    let time = Time { col: "t", fmt: "%Y%m%d%H%M%S", fmt_alter: Some("%Y%m%d") };
    for cell in [
        Cell::Null,
        Cell::Int(20240101),
        Cell::Float(1.0f64.to_bits()),
        Cell::Bool(false),
        Cell::Datetime(5, TimeUnit::Milliseconds),
        Cell::Duration(5),
    ] {
        assert_eq!(resolve_time(&cell, &time), None);
    }
}

#[test]
fn a_format_that_cannot_be_handed_on_gives_null() {
    assert!(is_plain_format("%Y%m%d%H%M%S"));
    assert!(is_plain_format(""));
    assert!(is_plain_format("%Y-%m-%d %H:%M:%S%.3f"));
    assert!(is_plain_format("%Y %3f"));
    assert!(is_plain_format("100%%x"));
    assert!(!is_plain_format("%Y%"));
    assert!(!is_plain_format("%"));
    assert!(!is_plain_format("%Y %3"));
    assert!(!is_plain_format("%6x"));
    assert!(!is_plain_format("%9"));
    assert!(is_plain_format(&"x".repeat(1024)));
    assert!(!is_plain_format(&"x".repeat(1025)));
    assert_eq!(parse_time("2024", "%Y%"), None);
    assert_eq!(parse_time("2024 123", "%Y %3"), None);
    assert_eq!(parse_time("20240101120000", "%Y%m%d%H%M%S"), Some(1704110400000));
    assert_eq!(parse_time("2024-01-01 12:00:00.250", "%Y-%m-%d %H:%M:%S%.3f"), Some(1704110400250));
    let time = Time { col: "t", fmt: "%Y%", fmt_alter: Some("%Y%m%d") };
    assert_eq!(resolve_time(&text("20240101"), &time), Some(1704067200000));
}

#[test]
fn a_format_that_is_refused_gives_null() {
    let time = Time { col: "t", fmt: "%H", fmt_alter: None };
    assert_eq!(resolve_time(&text("12"), &time), None);
}

#[test]
fn lookup_takes_the_first_column_of_a_name() {
    let header = names(&["a", "b", "a"]);
    let row = vec![Cell::Int(1), Cell::Int(2), Cell::Int(3)];
    assert_eq!(column_index(&header, "a"), Some(0));
    assert_eq!(column_index(&header, "b"), Some(1));
    assert_eq!(column_index(&header, "c"), None);
    assert_eq!(lookup(&header, &row, "a"), Cell::Int(1));
    assert_eq!(lookup(&header, &row, "c"), Cell::Null);
    assert_eq!(lookup(&header, &row[..1], "b"), Cell::Null);
}

#[test]
fn cells_compare_by_case_and_payload() {
    assert!(text("a").same(&text("a")));
    assert!(!text("a").same(&text("b")));
    assert!(!Cell::Int(1).same(&Cell::Float(1)));
    assert!(Cell::Null.same(&Cell::Null));
    assert!(!Cell::Datetime(1, TimeUnit::Milliseconds).same(&Cell::Datetime(1, TimeUnit::Nanoseconds)));
    assert!(Cell::Datetime(1, TimeUnit::Nanoseconds).same(&Cell::Datetime(1, TimeUnit::Nanoseconds)));
    assert!(text("a").is_text_or_null());
    assert!(Cell::Null.is_text_or_null());
    assert!(!Cell::Int(1).is_text_or_null());
    assert_eq!(text("a").clone(), text("a"));
}

#[test]
fn the_unified_table_has_ten_typed_columns() {
    let schema = gen_schema();
    let got: Vec<&str> = schema.iter().map(|c| c.0).collect();
    assert_eq!(
        got,
        vec![
            "_config_name",
            "_datetime",
            "_amount",
            "_from_id",
            "_from_bank_id",
            "_from_name",
            "_to_id",
            "_to_bank_id",
            "_to_name",
            "_file_path"
        ]
    );
    for (i, column) in schema.iter().enumerate() {
        assert_eq!(column.0, gen_column(i));
        let expected = match i {
            1 => DataType::Datetime,
            2 => DataType::Decimal,
            _ => DataType::String,
        };
        assert_eq!(column.1, expected);
    }
}
