//! The catalog of known statement layouts and the detection of a file's layout from
//! its header.

use vstd::prelude::*;
use crate::cell::field;
use crate::cell::lookup;
use crate::cell::Cell;
use crate::cell::Value;
use crate::error::Error;
use crate::error::Failure;

verus! {

/// A column expression of a participant: how one unified field is read from a raw row.
#[derive(Clone, Copy, Debug)]
pub enum Expr {
    /// The cell of the named column.
    Col(&'static str),
    /// The cell of the first column, or that of the second where the first is null.
    Coalesce(&'static str, &'static str),
    /// Null on every row.
    Null,
}

impl Expr {
    /// Value of the expression on one row.
    pub open spec fn value(&self, names: Seq<Seq<char>>, row: Seq<Value>) -> Value {
        match *self {
            Expr::Col(c) => field(names, row, c@),
            Expr::Coalesce(a, b) => if field(names, row, a@) is Null {
                field(names, row, b@)
            } else {
                field(names, row, a@)
            },
            Expr::Null => Value::Null,
        }
    }

    /// Evaluates the expression on one row.
    pub fn eval(&self, header: &[String], row: &[Cell]) -> (r: Cell)
        ensures
            r@ == self.value(header.deep_view(), row.deep_view()),
    {
        match *self {
            Expr::Col(c) => lookup(header, row, c),
            Expr::Coalesce(a, b) => {
                let first = lookup(header, row, a);
                match first {
                    Cell::Null => lookup(header, row, b),
                    _ => first,
                }
            },
            Expr::Null => Cell::Null,
        }
    }
}

/// The columns that describe one participant of a transaction.
#[derive(Clone, Copy, Debug)]
pub struct Entity {
    pub col_id: &'static str,
    pub col_id_alter: Option<&'static str>,
    pub col_bank_id: Option<&'static str>,
    pub col_name: Option<&'static str>,
}

/// The texts of a list of column references.
pub open spec fn texts(columns: Seq<&'static str>) -> Seq<Seq<char>> {
    Seq::new(columns.len(), |i: int| columns[i]@)
}

/// The column of an optional reference, as a sequence of zero or one name.
pub open spec fn optional_column(c: Option<&'static str>) -> Seq<Seq<char>> {
    match c {
        Some(x) => seq![x@],
        None => seq![],
    }
}

impl Entity {
    /// Expression of the participant's id: the id column, coalesced with the alternate
    /// id column where one is configured.
    pub open spec fn id_rule(&self) -> Expr {
        match self.col_id_alter {
            Some(alter) => Expr::Coalesce(self.col_id, alter),
            None => Expr::Col(self.col_id),
        }
    }

    /// Expression of the participant's bank id: its column, or null where none is configured.
    pub open spec fn bank_id_rule(&self) -> Expr {
        match self.col_bank_id {
            Some(x) => Expr::Col(x),
            None => Expr::Null,
        }
    }

    /// Expression of the participant's name: its column, or null where none is configured.
    pub open spec fn name_rule(&self) -> Expr {
        match self.col_name {
            Some(x) => Expr::Col(x),
            None => Expr::Null,
        }
    }

    /// The columns the participant refers to: id, then name, alternate id and bank id
    /// where configured.
    pub open spec fn columns(&self) -> Seq<Seq<char>> {
        seq![self.col_id@] + optional_column(self.col_name) + optional_column(self.col_id_alter)
            + optional_column(self.col_bank_id)
    }

    /// The expression that reads the participant's id.
    pub fn id_expr(&self) -> (r: Expr)
        ensures
            r == self.id_rule(),
    {
        if let Some(alter) = self.col_id_alter {
            Expr::Coalesce(self.col_id, alter)
        } else {
            Expr::Col(self.col_id)
        }
    }

    /// The expression that reads the participant's bank id.
    pub fn bank_id_expr(&self) -> (r: Expr)
        ensures
            r == self.bank_id_rule(),
    {
        if let Some(x) = self.col_bank_id {
            Expr::Col(x)
        } else {
            Expr::Null
        }
    }

    /// The expression that reads the participant's name.
    pub fn name_expr(&self) -> (r: Expr)
        ensures
            r == self.name_rule(),
    {
        if let Some(x) = self.col_name {
            Expr::Col(x)
        } else {
            Expr::Null
        }
    }

    /// The columns the participant refers to.
    pub fn all_columns(&self) -> (ret: Vec<&'static str>)
        ensures
            texts(ret@) == self.columns(),
    {
        let mut ret: Vec<&'static str> = Vec::new();
        ret.push(self.col_id);
        if let Some(col_name) = self.col_name {
            ret.push(col_name);
        }
        if let Some(alter) = self.col_id_alter {
            ret.push(alter);
        }
        if let Some(bank_id) = self.col_bank_id {
            ret.push(bank_id);
        }
        assert(texts(ret@) =~= self.columns());
        ret
    }
}

/// How a layout tells the two participants of a transaction apart.
#[derive(Clone, Copy, Debug)]
pub enum Trans {
    /// The payer and the payee each have columns of their own.
    Simple {
        col_amount: &'static str,
        from: Entity,
        to: Entity,
        /// Column of the account the statement was requested for.
        prime_id: Option<&'static str>,
    },
    /// A marker column tells whether money left `one` or reached it.
    Directed {
        col_amount: &'static str,
        /// The account the statement was requested for.
        one: Entity,
        /// The counterparty.
        other: Entity,
        /// Column of the direction marker.
        col_direct: &'static str,
        /// Marker value of a row on which money leaves `one`.
        value_out: &'static str,
        /// Whether `one` really is the requested account. Some statements mix
        /// rows of several accounts; the flag records it and changes no result.
        one_is_prime: bool,
    },
}

impl Trans {
    /// The columns the shape refers to, in the order in which they are listed.
    pub open spec fn columns(&self) -> Seq<Seq<char>> {
        match *self {
            Trans::Directed { col_amount, one, other, col_direct, value_out, one_is_prime } => {
                seq![col_amount@] + one.columns() + other.columns() + seq![col_direct@]
            },
            Trans::Simple { col_amount, from, to, prime_id } => {
                seq![col_amount@] + from.columns() + to.columns() + optional_column(prime_id)
            },
        }
    }

    /// The amount column of either shape.
    pub open spec fn amount_column(&self) -> Seq<char> {
        match *self {
            Trans::Directed { col_amount, one, other, col_direct, value_out, one_is_prime } => col_amount@,
            Trans::Simple { col_amount, from, to, prime_id } => col_amount@,
        }
    }

    /// The columns the shape refers to.
    pub fn all_columns(&self) -> (ret: Vec<&'static str>)
        ensures
            texts(ret@) == self.columns(),
    {
        let mut ret: Vec<&'static str> = Vec::new();
        match *self {
            Trans::Directed { col_amount, one, other, col_direct, value_out: _, one_is_prime: _ } => {
                let first = one.all_columns();
                let second = other.all_columns();
                ret.push(col_amount);
                extend(&mut ret, &first);
                extend(&mut ret, &second);
                ret.push(col_direct);
                proof {
                    lemma_texts_concat(seq![col_amount], first@);
                    lemma_texts_concat(seq![col_amount] + first@, second@);
                    lemma_texts_concat(seq![col_amount] + first@ + second@, seq![col_direct]);
                    assert(ret@ =~= seq![col_amount] + first@ + second@ + seq![col_direct]);
                    assert(texts(seq![col_amount]) =~= seq![col_amount@]);
                    assert(texts(seq![col_direct]) =~= seq![col_direct@]);
                }
            },
            Trans::Simple { col_amount, from, to, prime_id } => {
                let first = from.all_columns();
                let second = to.all_columns();
                ret.push(col_amount);
                extend(&mut ret, &first);
                extend(&mut ret, &second);
                let ghost before = ret@;
                if let Some(prime_id) = prime_id {
                    ret.push(prime_id)
                }
                proof {
                    let last: Seq<&'static str> = match prime_id {
                        Some(x) => seq![x],
                        None => seq![],
                    };
                    lemma_texts_concat(seq![col_amount], first@);
                    lemma_texts_concat(seq![col_amount] + first@, second@);
                    lemma_texts_concat(seq![col_amount] + first@ + second@, last);
                    assert(before =~= seq![col_amount] + first@ + second@);
                    assert(ret@ =~= before + last);
                    assert(texts(seq![col_amount]) =~= seq![col_amount@]);
                    assert(texts(last) =~= optional_column(prime_id));
                }
            },
        }
        ret
    }
}

/// The texts of a concatenation are the concatenation of the texts.
proof fn lemma_texts_concat(a: Seq<&'static str>, b: Seq<&'static str>)
    ensures
        texts(a + b) == texts(a) + texts(b),
{
    assert(texts(a + b) =~= texts(a) + texts(b));
}

/// Appends the names of `more` to `names`.
fn extend(names: &mut Vec<&'static str>, more: &Vec<&'static str>)
    ensures
        final(names)@ == old(names)@ + more@,
{
    let mut i: usize = 0;
    while i < more.len()
        invariant
            i <= more.len(),
            names@ == old(names)@ + more@.take(i as int),
        decreases more.len() - i,
    {
        names.push(more[i]);
        i += 1;
        assert(names@ =~= old(names)@ + more@.take(i as int));
    }
    assert(more@.take(more.len() as int) =~= more@);
}

/// Where a layout keeps the time of a transaction and how it is written.
#[derive(Clone, Copy, Debug)]
pub struct Time {
    pub col: &'static str,
    /// Format tried first.
    pub fmt: &'static str,
    /// Format tried on the values that the first does not parse.
    pub fmt_alter: Option<&'static str>,
}

/// One known statement layout.
#[derive(Clone, Copy, Debug)]
pub struct Config {
    /// Name of the layout, stamped on every row made with it.
    pub name: &'static str,
    /// Column whose value is unique per transaction within one file.
    pub col_id: Option<&'static str>,
    pub time: Time,
    pub trans: Trans,
}

impl Config {
    /// The required columns: the time column, then those of the transaction shape.
    pub open spec fn required_columns(&self) -> Seq<Seq<char>> {
        seq![self.time.col@] + self.trans.columns()
    }

    /// Whether every column the layout refers to has a name that is not empty: the
    /// required columns and the duplicate-key column.
    pub open spec fn well_formed(&self) -> bool {
        &&& forall|k: int|
            0 <= k < self.required_columns().len() ==> (#[trigger] self.required_columns()[k]).len()
                > 0
        &&& self.col_id matches Some(column) ==> column@.len() > 0
    }

    /// Whether every required column is among `names`. Order, repeats and further
    /// names do not matter.
    pub open spec fn matches(&self, names: Seq<Seq<char>>) -> bool {
        forall|k: int|
            0 <= k < self.required_columns().len() ==> names.contains(
                #[trigger] self.required_columns()[k],
            )
    }

    /// The columns a header must hold for the layout to match it.
    pub fn all_columns(&self) -> (ret: Vec<&'static str>)
        ensures
            texts(ret@) == self.required_columns(),
    {
        let mut ret: Vec<&'static str> = Vec::new();
        let rest = self.trans.all_columns();
        ret.push(self.time.col);
        extend(&mut ret, &rest);
        proof {
            lemma_texts_concat(seq![self.time.col], rest@);
            assert(ret@ =~= seq![self.time.col] + rest@);
            assert(texts(seq![self.time.col]) =~= seq![self.time.col@]);
        }
        ret
    }

    /// Whether the layout matches a file with the header `sig`.
    pub fn check(&self, sig: &[String]) -> (r: bool)
        ensures
            r == self.matches(sig.deep_view()),
    {
        let columns = self.all_columns();
        let mut i: usize = 0;
        while i < columns.len()
            invariant
                i <= columns.len(),
                texts(columns@) == self.required_columns(),
                forall|k: int|
                    0 <= k < i ==> sig.deep_view().contains(#[trigger] self.required_columns()[k]),
            decreases columns.len() - i,
        {
            assert(texts(columns@)[i as int] == columns[i as int]@);
            if column_index_of(sig, columns[i]).is_none() {
                return false;
            }
            i += 1;
        }
        true
    }
}

/// Whether two optional column references name the same column, or both none.
pub open spec fn same_optional(a: Option<&'static str>, b: Option<&'static str>) -> bool {
    match (a, b) {
        (Some(x), Some(y)) => x@ == y@,
        (None, None) => true,
        _ => false,
    }
}

/// Whether two participants name the same columns.
pub open spec fn same_entity(a: Entity, b: Entity) -> bool {
    &&& a.col_id@ == b.col_id@
    &&& same_optional(a.col_id_alter, b.col_id_alter)
    &&& same_optional(a.col_bank_id, b.col_bank_id)
    &&& same_optional(a.col_name, b.col_name)
}

/// Whether two shapes are of one kind and agree in every column, marker and flag.
pub open spec fn same_trans(a: Trans, b: Trans) -> bool {
    match (a, b) {
        (
            Trans::Simple { col_amount: amount_a, from: from_a, to: to_a, prime_id: prime_a },
            Trans::Simple { col_amount: amount_b, from: from_b, to: to_b, prime_id: prime_b },
        ) => {
            &&& amount_a@ == amount_b@
            &&& same_entity(from_a, from_b)
            &&& same_entity(to_a, to_b)
            &&& same_optional(prime_a, prime_b)
        },
        (
            Trans::Directed {
                col_amount: amount_a,
                one: one_a,
                other: other_a,
                col_direct: direct_a,
                value_out: out_a,
                one_is_prime: flag_a,
            },
            Trans::Directed {
                col_amount: amount_b,
                one: one_b,
                other: other_b,
                col_direct: direct_b,
                value_out: out_b,
                one_is_prime: flag_b,
            },
        ) => {
            &&& amount_a@ == amount_b@
            &&& same_entity(one_a, one_b)
            &&& same_entity(other_a, other_b)
            &&& direct_a@ == direct_b@
            &&& out_a@ == out_b@
            &&& flag_a == flag_b
        },
        _ => false,
    }
}

/// Whether two layouts say the same: name, duplicate-key column, time and shape agree
/// in every text and flag.
pub open spec fn same_layout(a: Config, b: Config) -> bool {
    &&& a.name@ == b.name@
    &&& same_optional(a.col_id, b.col_id)
    &&& a.time.col@ == b.time.col@
    &&& a.time.fmt@ == b.time.fmt@
    &&& same_optional(a.time.fmt_alter, b.time.fmt_alter)
    &&& same_trans(a.trans, b.trans)
}

/// Whether two texts are equal.
fn same_text(a: &str, b: &str) -> (r: bool)
    ensures
        r == (a@ == b@),
{
    a.to_owned() == b.to_owned()
}

/// Whether two optional texts are equal.
fn same_optional_text(a: Option<&'static str>, b: Option<&'static str>) -> (r: bool)
    ensures
        r == same_optional(a, b),
{
    match (a, b) {
        (Some(x), Some(y)) => same_text(x, y),
        (None, None) => true,
        _ => false,
    }
}

impl Entity {
    /// Whether this participant names the same columns as `other`.
    pub fn same(&self, other: &Entity) -> (r: bool)
        ensures
            r == same_entity(*self, *other),
    {
        same_text(self.col_id, other.col_id) && same_optional_text(
            self.col_id_alter,
            other.col_id_alter,
        ) && same_optional_text(self.col_bank_id, other.col_bank_id) && same_optional_text(
            self.col_name,
            other.col_name,
        )
    }
}

impl Trans {
    /// Whether this shape says the same as `other`.
    pub fn same(&self, other: &Trans) -> (r: bool)
        ensures
            r == same_trans(*self, *other),
    {
        match (*self, *other) {
            (
                Trans::Simple { col_amount: amount_a, from: from_a, to: to_a, prime_id: prime_a },
                Trans::Simple { col_amount: amount_b, from: from_b, to: to_b, prime_id: prime_b },
            ) => {
                same_text(amount_a, amount_b) && from_a.same(&from_b) && to_a.same(&to_b)
                    && same_optional_text(prime_a, prime_b)
            },
            (
                Trans::Directed {
                    col_amount: amount_a,
                    one: one_a,
                    other: other_a,
                    col_direct: direct_a,
                    value_out: out_a,
                    one_is_prime: flag_a,
                },
                Trans::Directed {
                    col_amount: amount_b,
                    one: one_b,
                    other: other_b,
                    col_direct: direct_b,
                    value_out: out_b,
                    one_is_prime: flag_b,
                },
            ) => {
                same_text(amount_a, amount_b) && one_a.same(&one_b) && other_a.same(&other_b)
                    && same_text(direct_a, direct_b) && same_text(out_a, out_b) && flag_a == flag_b
            },
            _ => false,
        }
    }
}

impl Config {
    /// Whether this layout says the same as `other`.
    pub fn same(&self, other: &Config) -> (r: bool)
        ensures
            r == same_layout(*self, *other),
    {
        same_text(self.name, other.name) && same_optional_text(self.col_id, other.col_id)
            && same_text(self.time.col, other.time.col) && same_text(self.time.fmt, other.time.fmt)
            && same_optional_text(self.time.fmt_alter, other.time.fmt_alter) && self.trans.same(
            &other.trans,
        )
    }
}

/// Whether detection pairs a header with a layout: the layout that detection gives
/// for the header says the same as this one.
pub open spec fn paired(names: Seq<Seq<char>>, config: Config) -> bool {
    detected(names) matches Some(found) && same_layout(found, config)
}

/// Index of the first layout of `layouts` that matches `names`.
pub open spec fn first_match(layouts: Seq<Config>, names: Seq<Seq<char>>) -> Option<int>
    decreases layouts.len(),
{
    if layouts.len() == 0 {
        None
    } else {
        match first_match(layouts.drop_last(), names) {
            Some(i) => Some(i),
            None => if layouts.last().matches(names) {
                Some(layouts.len() - 1)
            } else {
                None
            },
        }
    }
}

/// The layout that detection gives for a header: the first of the catalog that matches it.
pub open spec fn detected(names: Seq<Seq<char>>) -> Option<Config> {
    match first_match(Config::catalog(), names) {
        Some(i) => Some(Config::catalog()[i]),
        None => None,
    }
}

/// What `first_match` finds: a layout that matches with none before it that does, or
/// nothing where none matches.
pub proof fn lemma_first_match(layouts: Seq<Config>, names: Seq<Seq<char>>)
    ensures
        match first_match(layouts, names) {
            Some(i) => {
                &&& 0 <= i < layouts.len()
                &&& layouts[i].matches(names)
                &&& forall|j: int| 0 <= j < i ==> !(#[trigger] layouts[j]).matches(names)
            },
            None => forall|j: int| 0 <= j < layouts.len() ==> !(#[trigger] layouts[j]).matches(names),
        },
    decreases layouts.len(),
{
    if layouts.len() > 0 {
        let init = layouts.drop_last();
        lemma_first_match(init, names);
        assert(forall|j: int| 0 <= j < init.len() ==> init[j] == layouts[j]);
    }
}

impl Config {
    /// The layout of a file with the header `sig`: the first of the catalog whose
    /// required columns are all in `sig`. Without one, the header comes back in the error.
    pub fn auto_detect(sig: &[String]) -> (r: Result<Config, Error>)
        ensures
            match r {
                Ok(config) => detected(sig.deep_view()) == Some(config),
                Err(e) => {
                    &&& detected(sig.deep_view()) is None
                    &&& e@ == Failure::UnrecognizedLayout(sig.deep_view())
                },
            },
    {
        let all = Self::all();
        let mut i: usize = 0;
        while i < all.len()
            invariant
                i <= all.len(),
                all@ == Self::catalog(),
                first_match(all@.take(i as int), sig.deep_view()) is None,
            decreases all.len() - i,
        {
            if all[i].check(sig) {
                proof {
                    assert(all@.take(i + 1).drop_last() =~= all@.take(i as int));
                    lemma_first_match_prefix(all@, sig.deep_view(), i + 1);
                }
                return Ok(all[i]);
            }
            proof {
                assert(all@.take(i + 1).drop_last() =~= all@.take(i as int));
            }
            i += 1;
        }
        proof {
            assert(all@.take(all.len() as int) =~= all@);
        }
        Err(Error::UnrecognizedLayout(copy_names(sig)))
    }
}

/// A header made of every required column of a catalog layout and of any further
/// columns is detected as that layout, unless an earlier layout of the catalog
/// matches the header too.
pub proof fn lemma_superset_header_detected(i: int, extra: Seq<Seq<char>>)
    requires
        0 <= i < Config::catalog().len(),
        forall|j: int|
            0 <= j < i ==> !(#[trigger] Config::catalog()[j]).matches(
                Config::catalog()[i].required_columns() + extra,
            ),
    ensures
        detected(Config::catalog()[i].required_columns() + extra) == Some(Config::catalog()[i]),
{
    let layout = Config::catalog()[i];
    let names = layout.required_columns() + extra;
    assert forall|k: int| 0 <= k < layout.required_columns().len() implies names.contains(
        #[trigger] layout.required_columns()[k],
    ) by {
        assert(names[k] == layout.required_columns()[k]);
    }
    lemma_first_match(Config::catalog(), names);
}

/// A header that lacks one required column of a layout is never detected as that
/// layout: detection fails or gives another layout.
pub proof fn lemma_missing_column_not_detected(config: Config, names: Seq<Seq<char>>, k: int)
    requires
        0 <= k < config.required_columns().len(),
        !names.contains(config.required_columns()[k]),
    ensures
        !config.matches(names),
        detected(names) != Some(config),
        !paired(names, config),
{
    lemma_first_match(Config::catalog(), names);
    if detected(names) is Some {
        let found = detected(names)->0;
        if same_layout(found, config) {
            lemma_same_layout_columns(found, config);
            assert(found.matches(names));
            assert(names.contains(found.required_columns()[k]));
        }
    }
}

/// Layouts that say the same require the same columns.
pub proof fn lemma_same_layout_columns(a: Config, b: Config)
    requires
        same_layout(a, b),
    ensures
        a.required_columns() == b.required_columns(),
        a.trans.amount_column() == b.trans.amount_column(),
{
    match (a.trans, b.trans) {
        (
            Trans::Simple { col_amount: amount_a, from: from_a, to: to_a, prime_id: prime_a },
            Trans::Simple { col_amount: amount_b, from: from_b, to: to_b, prime_id: prime_b },
        ) => {
            lemma_same_entity_columns(from_a, from_b);
            lemma_same_entity_columns(to_a, to_b);
        },
        (
            Trans::Directed {
                col_amount: amount_a,
                one: one_a,
                other: other_a,
                col_direct: direct_a,
                value_out: out_a,
                one_is_prime: flag_a,
            },
            Trans::Directed {
                col_amount: amount_b,
                one: one_b,
                other: other_b,
                col_direct: direct_b,
                value_out: out_b,
                one_is_prime: flag_b,
            },
        ) => {
            lemma_same_entity_columns(one_a, one_b);
            lemma_same_entity_columns(other_a, other_b);
        },
        _ => {},
    }
}

/// Participants that name the same columns list the same columns.
proof fn lemma_same_entity_columns(a: Entity, b: Entity)
    requires
        same_entity(a, b),
    ensures
        a.columns() == b.columns(),
{
}

/// Where two layouts of the catalog match a header, detection does not give the later
/// one in place of the earlier: it gives a layout at or before the earlier position,
/// and the earlier one itself where nothing before it matches.
pub proof fn lemma_detection_order(i: int, j: int, names: Seq<Seq<char>>)
    requires
        0 <= i < j < Config::catalog().len(),
        Config::catalog()[i].matches(names),
        Config::catalog()[j].matches(names),
    ensures
        first_match(Config::catalog(), names) is Some,
        first_match(Config::catalog(), names)->0 <= i,
        (forall|m: int| 0 <= m < i ==> !(#[trigger] Config::catalog()[m]).matches(names))
            ==> detected(names) == Some(Config::catalog()[i]),
{
    lemma_first_match(Config::catalog(), names);
}

/// A match found among the first `n` layouts is the match found among all of them.
proof fn lemma_first_match_prefix(layouts: Seq<Config>, names: Seq<Seq<char>>, n: int)
    requires
        0 <= n <= layouts.len(),
        first_match(layouts.take(n), names) is Some,
    ensures
        first_match(layouts, names) == first_match(layouts.take(n), names),
    decreases layouts.len() - n,
{
    if n < layouts.len() {
        assert(layouts.take(n + 1).drop_last() =~= layouts.take(n));
        lemma_first_match_prefix(layouts, names, n + 1);
    } else {
        assert(layouts.take(n) =~= layouts);
    }
}

/// A copy of a list of names.
pub fn copy_names(names: &[String]) -> (r: Vec<String>)
    ensures
        r.deep_view() == names.deep_view(),
{
    let mut r: Vec<String> = Vec::new();
    let mut i: usize = 0;
    while i < names.len()
        invariant
            i <= names.len(),
            r@.len() == i,
            forall|j: int| 0 <= j < i ==> r@[j]@ == names@[j]@,
        decreases names.len() - i,
    {
        r.push(names[i].clone());
        i += 1;
    }
    assert(r.deep_view() =~= names.deep_view());
    r
}

/// Index of the first entry of `sig` equal to `name`, `None` exactly where `sig` lacks it.
fn column_index_of(sig: &[String], name: &str) -> (r: Option<usize>)
    ensures
        r is Some == sig.deep_view().contains(name@),
{
    let r = crate::cell::column_index(sig, name);
    proof {
        sig.deep_view().index_of_first_ensures(name@);
    }
    r
}

} // verus!
