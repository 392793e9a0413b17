use bill_unify::cell::Cell;
use bill_unify::cell::RawTable;
use bill_unify::conf::Config;
use bill_unify::dataset::row_conforms;
use bill_unify::dataset::same_transaction;
use bill_unify::dataset::Dataset;
use bill_unify::error::Error;
use bill_unify::reader::CanonicalRow;
use bill_unify::reader::FileContent;
use bill_unify::reader::SourceFile;
use bill_unify::reader::xlsx::Sheet;
use bill_unify::reader::xlsx::SheetCell;

fn text(s: &str) -> Cell {
    Cell::Str(s.to_string())
}

fn row(from: &str, to: &str, amount: i128, time: i64, file: &str) -> CanonicalRow {
    CanonicalRow {
        config_name: "t".to_string(),
        datetime: Some(time),
        amount: Some(amount),
        from_id: text(from),
        from_bank_id: Cell::Null,
        from_name: Cell::Null,
        to_id: text(to),
        to_bank_id: Cell::Null,
        to_name: Cell::Null,
        file_path: file.to_string(),
    }
}

fn bank_first_line() -> &'static str {
    "交易时间,金额,查询账号,查询账号姓名,对方账号卡号,对方账号姓名,借贷标志"
}

fn bank_table(ids: &[&str]) -> RawTable {
    let header: Vec<String> = bank_first_line().split(',').map(|s| s.to_string()).collect();
    let rows = ids
        .iter()
        .map(|id| {
            vec![
                text("20240101120000"),
                text("100.00"),
                text(id),
                text("张三"),
                text("B2"),
                text("李四"),
                text("借"),
            ]
        })
        .collect();
    RawTable { header, rows }
}

#[test]
fn a_new_aggregate_is_empty() {
    let ds = Dataset::new();
    assert_eq!(ds.len(), 0);
    assert_eq!(ds.done(), vec![]);
}

#[test]
fn batches_are_appended_in_order() {
    let mut ds = Dataset::new();
    assert_eq!(ds.attach_df(vec![row("a", "b", 1, 1, "f1"), row("c", "d", 2, 2, "f1")]), Ok(()));
    assert_eq!(ds.attach_df(vec![]), Ok(()));
    assert_eq!(ds.attach_df(vec![row("e", "f", 3, 3, "f2")]), Ok(()));
    assert_eq!(ds.len(), 3);
    let all = ds.done();
    assert_eq!(all[0], row("a", "b", 1, 1, "f1"));
    assert_eq!(all[1], row("c", "d", 2, 2, "f1"));
    assert_eq!(all[2], row("e", "f", 3, 3, "f2"));
}

#[test]
fn a_batch_with_a_mistyped_field_is_left_out_whole() {
    let mut ds = Dataset::new();
    assert!(ds.attach_df(vec![row("a", "b", 1, 1, "f1")]).is_ok());
    let mut bad = row("x", "y", 9, 9, "f2");
    bad.to_bank_id = Cell::Int(62220212345);
    assert!(!row_conforms(&bad));
    assert_eq!(ds.attach_df(vec![row("c", "d", 2, 2, "f2"), bad]), Err(Error::UnionFailure));
    assert_eq!(ds.len(), 1);
    for cell in [Cell::Float(1), Cell::Bool(true), Cell::Duration(1)] {
        let mut bad = row("x", "y", 9, 9, "f2");
        bad.from_id = cell;
        assert_eq!(ds.attach_df(vec![bad]), Err(Error::UnionFailure));
    }
    assert_eq!(ds.done(), vec![row("a", "b", 1, 1, "f1")]);
}

#[test]
fn repeated_transactions_collapse_to_the_first() {
    let mut ds = Dataset::new();
    ds.attach_df(vec![row("a", "b", 1, 1, "f1"), row("c", "d", 2, 2, "f1"), row("a", "b", 1, 1, "f1")]).unwrap();
    ds.attach_df(vec![row("a", "b", 1, 1, "f2"), row("a", "b", 1, 2, "f2"), row("a", "b", 2, 1, "f2")]).unwrap();
    ds.attach_df(vec![row("b", "a", 1, 1, "f3"), row("c", "d", 2, 2, "f3")]).unwrap();
    ds.drop_duplicate();
    let all = ds.done();
    assert_eq!(
        all,
        vec![
            row("a", "b", 1, 1, "f1"),
            row("c", "d", 2, 2, "f1"),
            row("a", "b", 1, 2, "f2"),
            row("a", "b", 2, 1, "f2"),
            row("b", "a", 1, 1, "f3"),
        ]
    );
}

#[test]
fn removing_duplicates_twice_is_removing_them_once() {
    let batch = || {
        vec![
            row("a", "b", 1, 1, "f1"),
            row("a", "b", 1, 1, "f2"),
            row("c", "d", 2, 2, "f1"),
            row("a", "b", 1, 1, "f3"),
            row("c", "d", 2, 2, "f2"),
        ]
    };
    let mut once = Dataset::new();
    once.attach_df(batch()).unwrap();
    once.drop_duplicate();
    let mut twice = Dataset::new();
    twice.attach_df(batch()).unwrap();
    twice.drop_duplicate();
    twice.drop_duplicate();
    assert_eq!(twice.len(), 2);
    assert_eq!(once.done(), twice.done());
}

#[test]
fn null_keys_count_as_equal() {
    let mut a = row("a", "b", 1, 1, "f1");
    a.amount = None;
    a.datetime = None;
    a.from_id = Cell::Null;
    let mut b = row("x", "b", 1, 1, "f2");
    b.amount = None;
    b.datetime = None;
    b.from_id = Cell::Null;
    assert!(same_transaction(&a, &b));
    let c = row("a", "b", 1, 1, "f1");
    assert!(!same_transaction(&a, &c));
    let mut ds = Dataset::new();
    ds.attach_df(vec![a.clone(), b, c]).unwrap();
    ds.drop_duplicate();
    assert_eq!(ds.len(), 2);
    assert_eq!(ds.done()[0], a);
}

#[test]
fn a_file_is_read_and_attached() {
    let mut ds = Dataset::new();
    let content = FileContent::Csv(bank_first_line().to_string(), bank_table(&["A1", "A2"]));
    assert_eq!(ds.attach_file("tmp/a.csv", content), Ok(()));
    assert_eq!(ds.len(), 2);
    assert_eq!(
        ds.attach_file("tmp/a.txt", FileContent::Csv(bank_first_line().to_string(), bank_table(&["A3"]))),
        Err(Error::UnsupportedFormat("txt".to_string()))
    );
    assert_eq!(ds.attach_file("tmp/b.csv", FileContent::Unreadable), Err(Error::Unreadable));
    assert_eq!(
        ds.attach_file("tmp/c.csv", FileContent::Csv("x,y".to_string(), bank_table(&["A3"]))),
        Err(Error::UnrecognizedLayout(vec!["x".to_string(), "y".to_string()]))
    );
    assert_eq!(ds.len(), 2);
    let all = ds.done();
    assert_eq!(all[1].from_id, text("A2"));
    assert_eq!(all[1].file_path, "tmp/a.csv");
}

#[test]
fn a_file_with_numeric_ids_is_read_but_not_attached() {
    let mut table = bank_table(&["A1"]);
    table.rows[0][2] = Cell::Float(6222021234567890.0f64.to_bits());
    let mut ds = Dataset::new();
    assert_eq!(
        ds.attach_file("tmp/a.csv", FileContent::Csv(bank_first_line().to_string(), table)),
        Err(Error::UnionFailure)
    );
    assert_eq!(ds.len(), 0);
}

#[test]
fn dataset_test_folder() {
    let sheet = Sheet {
        headers: Some(bank_first_line().split(',').map(|s| s.to_string()).collect()),
        rows: vec![vec![
            SheetCell::String("20240101120000".to_string()),
            SheetCell::Float(100.0f64.to_bits()),
            SheetCell::String("A1".to_string()),
            SheetCell::String("张三".to_string()),
            SheetCell::String("B2".to_string()),
            SheetCell::String("-".to_string()),
            SheetCell::String("借".to_string()),
        ]],
    };
    let files = vec![
        SourceFile {
            path: "./tmp/batch/one.csv".to_string(),
            content: FileContent::Csv(bank_first_line().to_string(), bank_table(&["A1", "A2"])),
        },
        SourceFile { path: "./tmp/batch/readme".to_string(), content: FileContent::Unreadable },
        SourceFile { path: "./tmp/batch/two.xlsx".to_string(), content: FileContent::Xlsx(sheet) },
        SourceFile {
            path: "./tmp/batch/other.csv".to_string(),
            content: FileContent::Csv("a,b".to_string(), RawTable { header: vec![], rows: vec![] }),
        },
    ];
    let mut ds = Dataset::new();
    ds.attach_folder("./tmp/batch/", files);
    assert_eq!(ds.len(), 3);
    ds.drop_duplicate();
    let all = ds.done();
    assert_eq!(all.len(), 2);
    assert_eq!(all[0].file_path, "./tmp/batch/one.csv");
    assert_eq!(all[0].from_id, text("A1"));
    assert_eq!(all[1].from_id, text("A2"));
    assert_eq!(Config::gf_bank().name, all[0].config_name);
}
