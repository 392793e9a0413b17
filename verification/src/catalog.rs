//! The known statement layouts, in the order in which detection tries them.

use vstd::prelude::*;
use crate::conf::Config;
use crate::datetime::is_fraction_width;
use crate::datetime::plain_format;
use crate::conf::Entity;
use crate::conf::Time;
use crate::conf::Trans;

verus! {

impl Config {
    /// Bank statements of the national anti-fraud platform.
    pub open spec fn spec_gf_bank() -> Config {
        Config {
            name: "国反-银行",
            col_id: None,
            time: Time { col: "交易时间", fmt: "%Y%m%d%H%M%S", fmt_alter: Some("%Y%m%d") },
            trans: Trans::Directed {
                col_amount: "金额",
                one: Entity {
                    col_id: "查询账号",
                    col_id_alter: None,
                    col_bank_id: Some("查询账号"),
                    col_name: Some("查询账号姓名"),
                },
                other: Entity {
                    col_id: "对方账号卡号",
                    col_id_alter: None,
                    col_bank_id: Some("对方账号卡号"),
                    col_name: Some("对方账号姓名"),
                },
                col_direct: "借贷标志",
                value_out: "借",
                one_is_prime: true,
            },
        }
    }

    /// Third-party payment statements of the national anti-fraud platform.
    pub open spec fn spec_gf_3() -> Config {
        Config {
            name: "国反-三方",
            col_id: Some("支付订单号"),
            time: Time { col: "交易时间", fmt: "%Y%m%d%H%M%S", fmt_alter: Some("%Y%m%d") },
            trans: Trans::Simple {
                col_amount: "交易金额",
                from: Entity {
                    col_id: "付款方的支付帐号",
                    col_id_alter: None,
                    col_bank_id: Some("付款方银行卡所属银行卡号"),
                    col_name: None,
                },
                to: Entity {
                    col_id: "收款方的支付帐号",
                    col_id_alter: Some("收款方的商户号"),
                    col_bank_id: Some("收款方银行卡所属银行卡号"),
                    col_name: Some("收款方的商户名称"),
                },
                prime_id: Some("支付帐号"),
            },
        }
    }

    /// UnionPay statements. Several of their column titles are swapped in the export;
    /// the layout names the columns that really hold each value.
    pub open spec fn spec_jass() -> Config {
        Config {
            name: "银联JASS",
            col_id: None,
            time: Time { col: "所属发卡银行机构代码", fmt: "%Y-%m-%d %H:%M:%S", fmt_alter: None },
            trans: Trans::Directed {
                col_amount: "受理机构代码",
                one: Entity {
                    col_id: "银行卡号（交易卡号）",
                    col_id_alter: None,
                    col_bank_id: Some("银行卡号（交易卡号）"),
                    col_name: None,
                },
                other: Entity {
                    col_id: "交易地点",
                    col_id_alter: None,
                    col_bank_id: None,
                    col_name: Some("交易地点"),
                },
                col_direct: "交易渠道",
                value_out: "消费",
                one_is_prime: true,
            },
        }
    }

    /// Statements of the economic-crime investigation platform.
    pub open spec fn spec_jz() -> Config {
        Config {
            name: "经侦",
            col_id: Some("交易流水号"),
            time: Time { col: "交易时间", fmt: "%Y%m%d%H%M%S", fmt_alter: None },
            trans: Trans::Directed {
                col_amount: "金额",
                one: Entity {
                    col_id: "查询账号",
                    col_id_alter: None,
                    col_bank_id: Some("查询账号"),
                    col_name: None,
                },
                other: Entity {
                    col_id: "对方账号卡号",
                    col_id_alter: None,
                    col_bank_id: Some("对方账号卡号"),
                    col_name: Some("对方账号姓名"),
                },
                col_direct: "借贷标志",
                value_out: "借",
                one_is_prime: true,
            },
        }
    }

    /// QQ wallet statements. They have an order-number column, but it is empty,
    /// and no column for the requested account.
    pub open spec fn spec_qq() -> Config {
        Config {
            name: "QQ钱包",
            col_id: None,
            time: Time { col: "交易时间", fmt: "%Y-%m-%d %H:%M:%S", fmt_alter: None },
            trans: Trans::Simple {
                col_amount: "交易金额",
                from: Entity {
                    col_id: "付款方支付账号",
                    col_id_alter: None,
                    col_bank_id: Some("付款银行卡号"),
                    col_name: Some("付款方开户名"),
                },
                to: Entity {
                    col_id: "收款支付帐号",
                    col_id_alter: None,
                    col_bank_id: Some("收款银行卡号"),
                    col_name: Some("收款方的商户名称"),
                },
                prime_id: None,
            },
        }
    }

    /// A generic directed layout whose rows mix several accounts, so that `one`
    /// is not always the requested account.
    pub open spec fn spec_generic1() -> Config {
        Config {
            name: "通用格式-1",
            col_id: None,
            time: Time { col: "交易日期", fmt: "%Y-%m-%d %H:%M:%S", fmt_alter: None },
            trans: Trans::Directed {
                col_amount: "交易金额",
                one: Entity {
                    col_id: "查询账户",
                    col_id_alter: None,
                    col_bank_id: None,
                    col_name: Some("查询姓名"),
                },
                other: Entity {
                    col_id: "对方账户",
                    col_id_alter: None,
                    col_bank_id: None,
                    col_name: Some("对方姓名"),
                },
                col_direct: "借贷标识",
                value_out: "出",
                one_is_prime: false,
            },
        }
    }

    /// The catalog: every known layout, in the order in which detection tries them.
    pub open spec fn catalog() -> Seq<Config> {
        seq![
            Self::spec_gf_bank(),
            Self::spec_gf_3(),
            Self::spec_jass(),
            Self::spec_jz(),
            Self::spec_qq(),
            Self::spec_generic1(),
        ]
    }

    /// Bank statements of the national anti-fraud platform.
    pub fn gf_bank() -> (r: Config)
        ensures
            r == Self::spec_gf_bank(),
    {
        Config {
            name: "国反-银行",
            col_id: None,
            time: Time { col: "交易时间", fmt: "%Y%m%d%H%M%S", fmt_alter: Some("%Y%m%d") },
            trans: Trans::Directed {
                col_amount: "金额",
                one: Entity {
                    col_id: "查询账号",
                    col_id_alter: None,
                    col_bank_id: Some("查询账号"),
                    col_name: Some("查询账号姓名"),
                },
                other: Entity {
                    col_id: "对方账号卡号",
                    col_id_alter: None,
                    col_bank_id: Some("对方账号卡号"),
                    col_name: Some("对方账号姓名"),
                },
                col_direct: "借贷标志",
                value_out: "借",
                one_is_prime: true,
            },
        }
    }

    /// Third-party payment statements of the national anti-fraud platform.
    pub fn gf_3() -> (r: Config)
        ensures
            r == Self::spec_gf_3(),
    {
        Config {
            name: "国反-三方",
            col_id: Some("支付订单号"),
            time: Time { col: "交易时间", fmt: "%Y%m%d%H%M%S", fmt_alter: Some("%Y%m%d") },
            trans: Trans::Simple {
                col_amount: "交易金额",
                from: Entity {
                    col_id: "付款方的支付帐号",
                    col_id_alter: None,
                    col_bank_id: Some("付款方银行卡所属银行卡号"),
                    col_name: None,
                },
                to: Entity {
                    col_id: "收款方的支付帐号",
                    col_id_alter: Some("收款方的商户号"),
                    col_bank_id: Some("收款方银行卡所属银行卡号"),
                    col_name: Some("收款方的商户名称"),
                },
                prime_id: Some("支付帐号"),
            },
        }
    }

    /// UnionPay statements.
    pub fn jass() -> (r: Config)
        ensures
            r == Self::spec_jass(),
    {
        Config {
            name: "银联JASS",
            col_id: None,
            time: Time { col: "所属发卡银行机构代码", fmt: "%Y-%m-%d %H:%M:%S", fmt_alter: None },
            trans: Trans::Directed {
                col_amount: "受理机构代码",
                one: Entity {
                    col_id: "银行卡号（交易卡号）",
                    col_id_alter: None,
                    col_bank_id: Some("银行卡号（交易卡号）"),
                    col_name: None,
                },
                other: Entity {
                    col_id: "交易地点",
                    col_id_alter: None,
                    col_bank_id: None,
                    col_name: Some("交易地点"),
                },
                col_direct: "交易渠道",
                value_out: "消费",
                one_is_prime: true,
            },
        }
    }

    /// Statements of the economic-crime investigation platform.
    pub fn jz() -> (r: Config)
        ensures
            r == Self::spec_jz(),
    {
        Config {
            name: "经侦",
            col_id: Some("交易流水号"),
            time: Time { col: "交易时间", fmt: "%Y%m%d%H%M%S", fmt_alter: None },
            trans: Trans::Directed {
                col_amount: "金额",
                one: Entity {
                    col_id: "查询账号",
                    col_id_alter: None,
                    col_bank_id: Some("查询账号"),
                    col_name: None,
                },
                other: Entity {
                    col_id: "对方账号卡号",
                    col_id_alter: None,
                    col_bank_id: Some("对方账号卡号"),
                    col_name: Some("对方账号姓名"),
                },
                col_direct: "借贷标志",
                value_out: "借",
                one_is_prime: true,
            },
        }
    }

    /// QQ wallet statements.
    pub fn qq() -> (r: Config)
        ensures
            r == Self::spec_qq(),
    {
        Config {
            name: "QQ钱包",
            col_id: None,
            time: Time { col: "交易时间", fmt: "%Y-%m-%d %H:%M:%S", fmt_alter: None },
            trans: Trans::Simple {
                col_amount: "交易金额",
                from: Entity {
                    col_id: "付款方支付账号",
                    col_id_alter: None,
                    col_bank_id: Some("付款银行卡号"),
                    col_name: Some("付款方开户名"),
                },
                to: Entity {
                    col_id: "收款支付帐号",
                    col_id_alter: None,
                    col_bank_id: Some("收款银行卡号"),
                    col_name: Some("收款方的商户名称"),
                },
                prime_id: None,
            },
        }
    }

    /// The generic directed layout.
    pub fn generic1() -> (r: Config)
        ensures
            r == Self::spec_generic1(),
    {
        Config {
            name: "通用格式-1",
            col_id: None,
            time: Time { col: "交易日期", fmt: "%Y-%m-%d %H:%M:%S", fmt_alter: None },
            trans: Trans::Directed {
                col_amount: "交易金额",
                one: Entity {
                    col_id: "查询账户",
                    col_id_alter: None,
                    col_bank_id: None,
                    col_name: Some("查询姓名"),
                },
                other: Entity {
                    col_id: "对方账户",
                    col_id_alter: None,
                    col_bank_id: None,
                    col_name: Some("对方姓名"),
                },
                col_direct: "借贷标识",
                value_out: "出",
                one_is_prime: false,
            },
        }
    }

    /// The catalog as values.
    pub fn all() -> (r: Vec<Config>)
        ensures
            r@ == Self::catalog(),
    {
        let mut r: Vec<Config> = Vec::new();
        r.push(Self::gf_bank());
        r.push(Self::gf_3());
        r.push(Self::jass());
        r.push(Self::jz());
        r.push(Self::qq());
        r.push(Self::generic1());
        assert(r@ =~= Self::catalog());
        r
    }
}

/// Every column that a layout of the catalog refers to has a name that is not empty.
pub proof fn lemma_catalog_well_formed()
    ensures
        forall|i: int| 0 <= i < Config::catalog().len() ==> (#[trigger] Config::catalog()[i]).well_formed(),
{
    reveal_strlit("交易时间");
    reveal_strlit("金额");
    reveal_strlit("查询账号");
    reveal_strlit("查询账号姓名");
    reveal_strlit("对方账号卡号");
    reveal_strlit("对方账号姓名");
    reveal_strlit("借贷标志");
    reveal_strlit("支付订单号");
    reveal_strlit("交易金额");
    reveal_strlit("付款方的支付帐号");
    reveal_strlit("付款方银行卡所属银行卡号");
    reveal_strlit("收款方的支付帐号");
    reveal_strlit("收款方的商户号");
    reveal_strlit("收款方银行卡所属银行卡号");
    reveal_strlit("收款方的商户名称");
    reveal_strlit("支付帐号");
    reveal_strlit("所属发卡银行机构代码");
    reveal_strlit("受理机构代码");
    reveal_strlit("银行卡号（交易卡号）");
    reveal_strlit("交易地点");
    reveal_strlit("交易渠道");
    reveal_strlit("交易流水号");
    reveal_strlit("付款方支付账号");
    reveal_strlit("付款银行卡号");
    reveal_strlit("付款方开户名");
    reveal_strlit("收款支付帐号");
    reveal_strlit("收款银行卡号");
    reveal_strlit("交易日期");
    reveal_strlit("查询账户");
    reveal_strlit("查询姓名");
    reveal_strlit("对方账户");
    reveal_strlit("对方姓名");
    reveal_strlit("借贷标识");
    assert(Config::spec_gf_bank().well_formed());
    assert(Config::spec_gf_3().well_formed());
    assert(Config::spec_jass().well_formed());
    assert(Config::spec_jz().well_formed());
    assert(Config::spec_qq().well_formed());
    assert(Config::spec_generic1().well_formed());
}

/// The layout at position 0 of the catalog is detected from its own required columns.
proof fn lemma_self_detected_0()
    ensures
        crate::conf::detected(Config::spec_gf_bank().required_columns()) == Some(Config::spec_gf_bank()),
{
    reveal_strlit("交易时间");
    reveal_strlit("金额");
    reveal_strlit("查询账号");
    reveal_strlit("查询账号姓名");
    reveal_strlit("对方账号卡号");
    reveal_strlit("对方账号姓名");
    reveal_strlit("借贷标志");
    let names = Config::spec_gf_bank().required_columns();
    assert(names =~= seq!["交易时间"@, "金额"@, "查询账号"@, "查询账号姓名"@, "查询账号"@, "对方账号卡号"@, "对方账号姓名"@, "对方账号卡号"@, "借贷标志"@]);
    assert(names + Seq::<Seq<char>>::empty() =~= names);
    crate::conf::lemma_superset_header_detected(0, Seq::empty());
}

/// The layout at position 1 of the catalog is detected from its own required columns.
proof fn lemma_self_detected_1()
    ensures
        crate::conf::detected(Config::spec_gf_3().required_columns()) == Some(Config::spec_gf_3()),
{
    reveal_strlit("交易时间");
    reveal_strlit("交易金额");
    reveal_strlit("付款方的支付帐号");
    reveal_strlit("付款方银行卡所属银行卡号");
    reveal_strlit("收款方的支付帐号");
    reveal_strlit("收款方的商户名称");
    reveal_strlit("收款方的商户号");
    reveal_strlit("收款方银行卡所属银行卡号");
    reveal_strlit("支付帐号");
    reveal_strlit("金额");
    let names = Config::spec_gf_3().required_columns();
    assert(names =~= seq!["交易时间"@, "交易金额"@, "付款方的支付帐号"@, "付款方银行卡所属银行卡号"@, "收款方的支付帐号"@, "收款方的商户名称"@, "收款方的商户号"@, "收款方银行卡所属银行卡号"@, "支付帐号"@]);
    assert("交易时间"@.len() != "金额"@.len());
    assert("交易金额"@.len() != "金额"@.len());
    assert("付款方的支付帐号"@.len() != "金额"@.len());
    assert("付款方银行卡所属银行卡号"@.len() != "金额"@.len());
    assert("收款方的支付帐号"@.len() != "金额"@.len());
    assert("收款方的商户名称"@.len() != "金额"@.len());
    assert("收款方的商户号"@.len() != "金额"@.len());
    assert("收款方银行卡所属银行卡号"@.len() != "金额"@.len());
    assert("支付帐号"@.len() != "金额"@.len());
    assert(!names.contains("金额"@));
    assert(Config::spec_gf_bank().required_columns()[1] == "金额"@);
    assert(!Config::catalog()[0].matches(names));
    assert(names + Seq::<Seq<char>>::empty() =~= names);
    crate::conf::lemma_superset_header_detected(1, Seq::empty());
}

/// The layout at position 2 of the catalog is detected from its own required columns.
proof fn lemma_self_detected_2()
    ensures
        crate::conf::detected(Config::spec_jass().required_columns()) == Some(Config::spec_jass()),
{
    reveal_strlit("所属发卡银行机构代码");
    reveal_strlit("受理机构代码");
    reveal_strlit("银行卡号（交易卡号）");
    reveal_strlit("交易地点");
    reveal_strlit("交易渠道");
    reveal_strlit("交易时间");
    let names = Config::spec_jass().required_columns();
    assert(names =~= seq!["所属发卡银行机构代码"@, "受理机构代码"@, "银行卡号（交易卡号）"@, "银行卡号（交易卡号）"@, "交易地点"@, "交易地点"@, "交易渠道"@]);
    assert("所属发卡银行机构代码"@.len() != "交易时间"@.len());
    assert("受理机构代码"@.len() != "交易时间"@.len());
    assert("银行卡号（交易卡号）"@.len() != "交易时间"@.len());
    assert("交易地点"@[2] != "交易时间"@[2]);
    assert("交易渠道"@[2] != "交易时间"@[2]);
    assert(!names.contains("交易时间"@));
    assert(Config::spec_gf_bank().required_columns()[0] == "交易时间"@);
    assert(!Config::catalog()[0].matches(names));
    assert(Config::spec_gf_3().required_columns()[0] == "交易时间"@);
    assert(!Config::catalog()[1].matches(names));
    assert(names + Seq::<Seq<char>>::empty() =~= names);
    crate::conf::lemma_superset_header_detected(2, Seq::empty());
}

/// The layout at position 3 of the catalog is detected from its own required columns.
proof fn lemma_self_detected_3()
    ensures
        crate::conf::detected(Config::spec_jz().required_columns()) == Some(Config::spec_jz()),
{
    reveal_strlit("交易时间");
    reveal_strlit("金额");
    reveal_strlit("查询账号");
    reveal_strlit("对方账号卡号");
    reveal_strlit("对方账号姓名");
    reveal_strlit("借贷标志");
    reveal_strlit("查询账号姓名");
    reveal_strlit("交易金额");
    reveal_strlit("交易地点");
    let names = Config::spec_jz().required_columns();
    assert(names =~= seq!["交易时间"@, "金额"@, "查询账号"@, "查询账号"@, "对方账号卡号"@, "对方账号姓名"@, "对方账号卡号"@, "借贷标志"@]);
    assert("交易时间"@.len() != "查询账号姓名"@.len());
    assert("金额"@.len() != "查询账号姓名"@.len());
    assert("查询账号"@.len() != "查询账号姓名"@.len());
    assert("对方账号卡号"@[0] != "查询账号姓名"@[0]);
    assert("对方账号姓名"@[0] != "查询账号姓名"@[0]);
    assert("借贷标志"@.len() != "查询账号姓名"@.len());
    assert(!names.contains("查询账号姓名"@));
    assert(Config::spec_gf_bank().required_columns()[3] == "查询账号姓名"@);
    assert(!Config::catalog()[0].matches(names));
    assert("交易时间"@[2] != "交易金额"@[2]);
    assert("金额"@.len() != "交易金额"@.len());
    assert("查询账号"@[0] != "交易金额"@[0]);
    assert("对方账号卡号"@.len() != "交易金额"@.len());
    assert("对方账号姓名"@.len() != "交易金额"@.len());
    assert("借贷标志"@[0] != "交易金额"@[0]);
    assert(!names.contains("交易金额"@));
    assert(Config::spec_gf_3().required_columns()[1] == "交易金额"@);
    assert(!Config::catalog()[1].matches(names));
    assert("交易时间"@[2] != "交易地点"@[2]);
    assert("金额"@.len() != "交易地点"@.len());
    assert("查询账号"@[0] != "交易地点"@[0]);
    assert("对方账号卡号"@.len() != "交易地点"@.len());
    assert("对方账号姓名"@.len() != "交易地点"@.len());
    assert("借贷标志"@[0] != "交易地点"@[0]);
    assert(!names.contains("交易地点"@));
    assert(Config::spec_jass().required_columns()[4] == "交易地点"@);
    assert(!Config::catalog()[2].matches(names));
    assert(names + Seq::<Seq<char>>::empty() =~= names);
    crate::conf::lemma_superset_header_detected(3, Seq::empty());
}

/// The layout at position 4 of the catalog is detected from its own required columns.
proof fn lemma_self_detected_4()
    ensures
        crate::conf::detected(Config::spec_qq().required_columns()) == Some(Config::spec_qq()),
{
    reveal_strlit("交易时间");
    reveal_strlit("交易金额");
    reveal_strlit("付款方支付账号");
    reveal_strlit("付款方开户名");
    reveal_strlit("付款银行卡号");
    reveal_strlit("收款支付帐号");
    reveal_strlit("收款方的商户名称");
    reveal_strlit("收款银行卡号");
    reveal_strlit("金额");
    reveal_strlit("付款方的支付帐号");
    reveal_strlit("交易地点");
    let names = Config::spec_qq().required_columns();
    assert(names =~= seq!["交易时间"@, "交易金额"@, "付款方支付账号"@, "付款方开户名"@, "付款银行卡号"@, "收款支付帐号"@, "收款方的商户名称"@, "收款银行卡号"@]);
    assert("交易时间"@.len() != "金额"@.len());
    assert("交易金额"@.len() != "金额"@.len());
    assert("付款方支付账号"@.len() != "金额"@.len());
    assert("付款方开户名"@.len() != "金额"@.len());
    assert("付款银行卡号"@.len() != "金额"@.len());
    assert("收款支付帐号"@.len() != "金额"@.len());
    assert("收款方的商户名称"@.len() != "金额"@.len());
    assert("收款银行卡号"@.len() != "金额"@.len());
    assert(!names.contains("金额"@));
    assert(Config::spec_gf_bank().required_columns()[1] == "金额"@);
    assert(!Config::catalog()[0].matches(names));
    assert("交易时间"@.len() != "付款方的支付帐号"@.len());
    assert("交易金额"@.len() != "付款方的支付帐号"@.len());
    assert("付款方支付账号"@.len() != "付款方的支付帐号"@.len());
    assert("付款方开户名"@.len() != "付款方的支付帐号"@.len());
    assert("付款银行卡号"@.len() != "付款方的支付帐号"@.len());
    assert("收款支付帐号"@.len() != "付款方的支付帐号"@.len());
    assert("收款方的商户名称"@[0] != "付款方的支付帐号"@[0]);
    assert("收款银行卡号"@.len() != "付款方的支付帐号"@.len());
    assert(!names.contains("付款方的支付帐号"@));
    assert(Config::spec_gf_3().required_columns()[2] == "付款方的支付帐号"@);
    assert(!Config::catalog()[1].matches(names));
    assert("交易时间"@[2] != "交易地点"@[2]);
    assert("交易金额"@[2] != "交易地点"@[2]);
    assert("付款方支付账号"@.len() != "交易地点"@.len());
    assert("付款方开户名"@.len() != "交易地点"@.len());
    assert("付款银行卡号"@.len() != "交易地点"@.len());
    assert("收款支付帐号"@.len() != "交易地点"@.len());
    assert("收款方的商户名称"@.len() != "交易地点"@.len());
    assert("收款银行卡号"@.len() != "交易地点"@.len());
    assert(!names.contains("交易地点"@));
    assert(Config::spec_jass().required_columns()[4] == "交易地点"@);
    assert(!Config::catalog()[2].matches(names));
    assert(Config::spec_jz().required_columns()[1] == "金额"@);
    assert(!Config::catalog()[3].matches(names));
    assert(names + Seq::<Seq<char>>::empty() =~= names);
    crate::conf::lemma_superset_header_detected(4, Seq::empty());
}

/// The layout at position 5 of the catalog is detected from its own required columns.
proof fn lemma_self_detected_5()
    ensures
        crate::conf::detected(Config::spec_generic1().required_columns()) == Some(Config::spec_generic1()),
{
    reveal_strlit("交易日期");
    reveal_strlit("交易金额");
    reveal_strlit("查询账户");
    reveal_strlit("查询姓名");
    reveal_strlit("对方账户");
    reveal_strlit("对方姓名");
    reveal_strlit("借贷标识");
    reveal_strlit("交易时间");
    reveal_strlit("交易地点");
    let names = Config::spec_generic1().required_columns();
    assert(names =~= seq!["交易日期"@, "交易金额"@, "查询账户"@, "查询姓名"@, "对方账户"@, "对方姓名"@, "借贷标识"@]);
    assert("交易日期"@[2] != "交易时间"@[2]);
    assert("交易金额"@[2] != "交易时间"@[2]);
    assert("查询账户"@[0] != "交易时间"@[0]);
    assert("查询姓名"@[0] != "交易时间"@[0]);
    assert("对方账户"@[0] != "交易时间"@[0]);
    assert("对方姓名"@[0] != "交易时间"@[0]);
    assert("借贷标识"@[0] != "交易时间"@[0]);
    assert(!names.contains("交易时间"@));
    assert(Config::spec_gf_bank().required_columns()[0] == "交易时间"@);
    assert(!Config::catalog()[0].matches(names));
    assert(Config::spec_gf_3().required_columns()[0] == "交易时间"@);
    assert(!Config::catalog()[1].matches(names));
    assert("交易日期"@[2] != "交易地点"@[2]);
    assert("交易金额"@[2] != "交易地点"@[2]);
    assert("查询账户"@[0] != "交易地点"@[0]);
    assert("查询姓名"@[0] != "交易地点"@[0]);
    assert("对方账户"@[0] != "交易地点"@[0]);
    assert("对方姓名"@[0] != "交易地点"@[0]);
    assert("借贷标识"@[0] != "交易地点"@[0]);
    assert(!names.contains("交易地点"@));
    assert(Config::spec_jass().required_columns()[4] == "交易地点"@);
    assert(!Config::catalog()[2].matches(names));
    assert(Config::spec_jz().required_columns()[0] == "交易时间"@);
    assert(!Config::catalog()[3].matches(names));
    assert(Config::spec_qq().required_columns()[0] == "交易时间"@);
    assert(!Config::catalog()[4].matches(names));
    assert(names + Seq::<Seq<char>>::empty() =~= names);
    crate::conf::lemma_superset_header_detected(5, Seq::empty());
}

/// Each layout of the catalog is detected from a header made of exactly its own
/// required columns: no earlier layout of the catalog is content with them.
pub proof fn lemma_catalog_self_detected(i: int)
    requires
        0 <= i < Config::catalog().len(),
    ensures
        crate::conf::detected(Config::catalog()[i].required_columns()) == Some(Config::catalog()[i]),
{
    lemma_self_detected_0();
    lemma_self_detected_1();
    lemma_self_detected_2();
    lemma_self_detected_3();
    lemma_self_detected_4();
    lemma_self_detected_5();
}

/// The format `%Y%m%d%H%M%S` can be handed to the parser.
proof fn lemma_compact_format_plain()
    ensures
        plain_format("%Y%m%d%H%M%S"@),
{
    reveal_strlit("%Y%m%d%H%M%S");
    let format = "%Y%m%d%H%M%S"@;
    assert(format.len() == 12);
    assert(format.last() == format[11]);
    assert(format[0] == '%');
    assert(format[1] == 'Y');
    assert(format[2] == '%');
    assert(format[3] == 'm');
    assert(format[4] == '%');
    assert(format[5] == 'd');
    assert(format[6] == '%');
    assert(format[7] == 'H');
    assert(format[8] == '%');
    assert(format[9] == 'M');
    assert(format[10] == '%');
    assert(format[11] == 'S');
    assert forall|i: int|
        0 <= i < format.len() - 1 && format[i] == '%' && is_fraction_width(
            #[trigger] format[i + 1],
        ) implies i + 2 < format.len() && format[i + 2] == 'f' by {
        assert(i + 1 == 1 ==> !is_fraction_width(format[i + 1]));
        assert(i + 1 == 2 ==> !is_fraction_width(format[i + 1]));
        assert(i + 1 == 3 ==> !is_fraction_width(format[i + 1]));
        assert(i + 1 == 4 ==> !is_fraction_width(format[i + 1]));
        assert(i + 1 == 5 ==> !is_fraction_width(format[i + 1]));
        assert(i + 1 == 6 ==> !is_fraction_width(format[i + 1]));
        assert(i + 1 == 7 ==> !is_fraction_width(format[i + 1]));
        assert(i + 1 == 8 ==> !is_fraction_width(format[i + 1]));
        assert(i + 1 == 9 ==> !is_fraction_width(format[i + 1]));
        assert(i + 1 == 10 ==> !is_fraction_width(format[i + 1]));
        assert(i + 1 == 11 ==> !is_fraction_width(format[i + 1]));
    }
}

/// The format `%Y%m%d` can be handed to the parser.
proof fn lemma_date_format_plain()
    ensures
        plain_format("%Y%m%d"@),
{
    reveal_strlit("%Y%m%d");
    let format = "%Y%m%d"@;
    assert(format.len() == 6);
    assert(format.last() == format[5]);
    assert(format[0] == '%');
    assert(format[1] == 'Y');
    assert(format[2] == '%');
    assert(format[3] == 'm');
    assert(format[4] == '%');
    assert(format[5] == 'd');
    assert forall|i: int|
        0 <= i < format.len() - 1 && format[i] == '%' && is_fraction_width(
            #[trigger] format[i + 1],
        ) implies i + 2 < format.len() && format[i + 2] == 'f' by {
        assert(i + 1 == 1 ==> !is_fraction_width(format[i + 1]));
        assert(i + 1 == 2 ==> !is_fraction_width(format[i + 1]));
        assert(i + 1 == 3 ==> !is_fraction_width(format[i + 1]));
        assert(i + 1 == 4 ==> !is_fraction_width(format[i + 1]));
        assert(i + 1 == 5 ==> !is_fraction_width(format[i + 1]));
    }
}

/// The format `%Y-%m-%d %H:%M:%S` can be handed to the parser.
proof fn lemma_dashed_format_plain()
    ensures
        plain_format("%Y-%m-%d %H:%M:%S"@),
{
    reveal_strlit("%Y-%m-%d %H:%M:%S");
    let format = "%Y-%m-%d %H:%M:%S"@;
    assert(format.len() == 17);
    assert(format.last() == format[16]);
    assert(format[0] == '%');
    assert(format[1] == 'Y');
    assert(format[2] == '-');
    assert(format[3] == '%');
    assert(format[4] == 'm');
    assert(format[5] == '-');
    assert(format[6] == '%');
    assert(format[7] == 'd');
    assert(format[8] == ' ');
    assert(format[9] == '%');
    assert(format[10] == 'H');
    assert(format[11] == ':');
    assert(format[12] == '%');
    assert(format[13] == 'M');
    assert(format[14] == ':');
    assert(format[15] == '%');
    assert(format[16] == 'S');
    assert forall|i: int|
        0 <= i < format.len() - 1 && format[i] == '%' && is_fraction_width(
            #[trigger] format[i + 1],
        ) implies i + 2 < format.len() && format[i + 2] == 'f' by {
        assert(i + 1 == 1 ==> !is_fraction_width(format[i + 1]));
        assert(i + 1 == 2 ==> !is_fraction_width(format[i + 1]));
        assert(i + 1 == 3 ==> !is_fraction_width(format[i + 1]));
        assert(i + 1 == 4 ==> !is_fraction_width(format[i + 1]));
        assert(i + 1 == 5 ==> !is_fraction_width(format[i + 1]));
        assert(i + 1 == 6 ==> !is_fraction_width(format[i + 1]));
        assert(i + 1 == 7 ==> !is_fraction_width(format[i + 1]));
        assert(i + 1 == 8 ==> !is_fraction_width(format[i + 1]));
        assert(i + 1 == 9 ==> !is_fraction_width(format[i + 1]));
        assert(i + 1 == 10 ==> !is_fraction_width(format[i + 1]));
        assert(i + 1 == 11 ==> !is_fraction_width(format[i + 1]));
        assert(i + 1 == 12 ==> !is_fraction_width(format[i + 1]));
        assert(i + 1 == 13 ==> !is_fraction_width(format[i + 1]));
        assert(i + 1 == 14 ==> !is_fraction_width(format[i + 1]));
        assert(i + 1 == 15 ==> !is_fraction_width(format[i + 1]));
        assert(i + 1 == 16 ==> !is_fraction_width(format[i + 1]));
    }
}

/// Every time format of the catalog, primary and fallback, can be handed to the
/// parser: under the layouts of the catalog the time of a text cell is what the parser
/// reads from it, under the primary format first.
pub proof fn lemma_catalog_formats_plain()
    ensures
        forall|i: int|
            0 <= i < Config::catalog().len() ==> {
                &&& plain_format((#[trigger] Config::catalog()[i]).time.fmt@)
                &&& Config::catalog()[i].time.fmt_alter matches Some(fallback) ==> plain_format(
                    fallback@,
                )
            },
{
    lemma_compact_format_plain();
    lemma_date_format_plain();
    lemma_dashed_format_plain();
}

} // verus!
