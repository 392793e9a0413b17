use bill_unify::conf::Config;
use bill_unify::conf::Entity;
use bill_unify::conf::Expr;
use bill_unify::conf::Trans;
use bill_unify::cell::Cell;
use bill_unify::error::Error;

fn names(list: &[&str]) -> Vec<String> {
    list.iter().map(|s| s.to_string()).collect()
}

fn required(config: &Config) -> Vec<String> {
    config.all_columns().iter().map(|s| s.to_string()).collect()
}

#[test]
fn catalog_has_six_layouts_in_order() {
    let all = Config::all();
    let got: Vec<&str> = all.iter().map(|c| c.name).collect();
    assert_eq!(got, vec!["国反-银行", "国反-三方", "银联JASS", "经侦", "QQ钱包", "通用格式-1"]);
}

#[test]
fn entity_columns_are_listed_id_name_alternate_bank() {
    let e = Entity {
        col_id: "id",
        col_id_alter: Some("alt"),
        col_bank_id: Some("bank"),
        col_name: Some("name"),
    };
    assert_eq!(e.all_columns(), vec!["id", "name", "alt", "bank"]);
    let bare = Entity { col_id: "id", col_id_alter: None, col_bank_id: None, col_name: None };
    assert_eq!(bare.all_columns(), vec!["id"]);
}

#[test]
fn directed_shape_lists_amount_one_other_direction() {
    let all = Config::gf_bank().trans.all_columns();
    assert_eq!(
        all,
        vec!["金额", "查询账号", "查询账号姓名", "查询账号", "对方账号卡号", "对方账号姓名", "对方账号卡号", "借贷标志"]
    );
}

#[test]
fn simple_shape_lists_amount_from_to_prime() {
    let all = Config::gf_3().trans.all_columns();
    assert_eq!(
        all,
        vec![
            "交易金额",
            "付款方的支付帐号",
            "付款方银行卡所属银行卡号",
            "收款方的支付帐号",
            "收款方的商户名称",
            "收款方的商户号",
            "收款方银行卡所属银行卡号",
            "支付帐号"
        ]
    );
    let qq = Config::qq().trans.all_columns();
    assert_eq!(qq.len(), 7);
    assert_eq!(qq[0], "交易金额");
}

#[test]
fn required_columns_start_with_the_time_column() {
    let all = Config::jass().all_columns();
    assert_eq!(all[0], "所属发卡银行机构代码");
    assert_eq!(all.len(), 1 + Config::jass().trans.all_columns().len());
}

#[test]
fn every_layout_is_detected_from_its_own_columns() {
    for config in Config::all() {
        let header = required(&config);
        let found = Config::auto_detect(&header).unwrap();
        assert_eq!(found.name, config.name);
    }
}

#[test]
fn further_columns_do_not_hinder_detection() {
    let config = Config::generic1();
    let mut header = names(&["备注", "流水号"]);
    header.extend(required(&config));
    header.push("余额".to_string());
    assert_eq!(Config::auto_detect(&header).unwrap().name, "通用格式-1");
}

#[test]
fn order_and_repeats_of_the_header_do_not_matter() {
    let mut header = required(&Config::qq());
    header.reverse();
    header.push("交易时间".to_string());
    header.push("交易时间".to_string());
    assert_eq!(Config::auto_detect(&header).unwrap().name, "QQ钱包");
    assert!(Config::qq().check(&header));
}

#[test]
fn a_header_without_one_required_column_is_never_that_layout() {
    for config in Config::all() {
        let full = required(&config);
        for missing in full.iter() {
            let header: Vec<String> = full.iter().filter(|c| *c != missing).cloned().collect();
            assert!(!config.check(&header));
            match Config::auto_detect(&header) {
                Ok(found) => assert_ne!(found.name, config.name),
                Err(Error::UnrecognizedLayout(h)) => assert_eq!(h, header),
                Err(other) => panic!("{:?}", other),
            }
        }
    }
}

#[test]
fn the_earlier_of_two_matching_layouts_wins() {
    let header = required(&Config::gf_bank());
    assert!(Config::gf_bank().check(&header));
    assert!(Config::jz().check(&header));
    assert_eq!(Config::auto_detect(&header).unwrap().name, "国反-银行");
    let without_name: Vec<String> =
        header.iter().filter(|c| c.as_str() != "查询账号姓名").cloned().collect();
    assert!(!Config::gf_bank().check(&without_name));
    assert_eq!(Config::auto_detect(&without_name).unwrap().name, "经侦");
}

#[test]
fn an_unknown_header_is_refused_with_the_header() {
    let header = names(&["不认识的列"]);
    match Config::auto_detect(&header) {
        Err(Error::UnrecognizedLayout(h)) => assert_eq!(h, header),
        other => panic!("{:?}", other),
    }
    let empty: Vec<String> = Vec::new();
    assert!(matches!(Config::auto_detect(&empty), Err(Error::UnrecognizedLayout(h)) if h.is_empty()));
}

#[test]
fn the_bank_layout_is_directed_with_its_marker() {
    match Config::gf_bank().trans {
        Trans::Directed { col_direct, value_out, one_is_prime, .. } => {
            assert_eq!(col_direct, "借贷标志");
            assert_eq!(value_out, "借");
            assert!(one_is_prime);
        },
        _ => panic!("not directed"),
    }
    match Config::generic1().trans {
        Trans::Directed { one_is_prime, .. } => assert!(!one_is_prime),
        _ => panic!("not directed"),
    }
}

#[test]
fn participant_expressions_follow_the_configured_columns() {
    let header = names(&["id", "alt", "bank", "name"]);
    let e = Entity {
        col_id: "id",
        col_id_alter: Some("alt"),
        col_bank_id: Some("bank"),
        col_name: Some("name"),
    };
    let row = vec![
        Cell::Str("A".to_string()),
        Cell::Str("B".to_string()),
        Cell::Str("C".to_string()),
        Cell::Str("D".to_string()),
    ];
    assert_eq!(e.id_expr().eval(&header, &row), Cell::Str("A".to_string()));
    assert_eq!(e.bank_id_expr().eval(&header, &row), Cell::Str("C".to_string()));
    assert_eq!(e.name_expr().eval(&header, &row), Cell::Str("D".to_string()));
    let row = vec![Cell::Null, Cell::Str("B".to_string()), Cell::Null, Cell::Null];
    assert_eq!(e.id_expr().eval(&header, &row), Cell::Str("B".to_string()));
    assert_eq!(e.bank_id_expr().eval(&header, &row), Cell::Null);
    let short = vec![Cell::Null];
    assert_eq!(e.id_expr().eval(&header, &short), Cell::Null);
}

#[test]
fn a_participant_without_optional_columns_gives_nulls() {
    let header = names(&["id", "alt"]);
    let e = Entity { col_id: "id", col_id_alter: None, col_bank_id: None, col_name: None };
    let row = vec![Cell::Null, Cell::Str("B".to_string())];
    assert!(matches!(e.id_expr(), Expr::Col("id")));
    assert!(matches!(e.bank_id_expr(), Expr::Null));
    assert!(matches!(e.name_expr(), Expr::Null));
    assert_eq!(e.id_expr().eval(&header, &row), Cell::Null);
    assert_eq!(e.bank_id_expr().eval(&header, &row), Cell::Null);
    assert_eq!(e.name_expr().eval(&header, &row), Cell::Null);
}
