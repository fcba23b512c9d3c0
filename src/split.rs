use vstd::prelude::*;

use rand::rngs::StdRng;
use rand::seq::SliceRandom;
use rand::SeedableRng;

use crate::error::DataError;
use crate::features::{
    feature_names, feature_names_spec, lemma_required_names_distinct, required_names_spec,
    target_name, target_name_spec,
};
use crate::table::{
    all_present, column_index, has_column, missing_first, names_of, row_count_of, select_spec, string_views,
    table_wf, take_rows_spec, ColumnView, Table,
};

verus! {

/// The order in which rand's `SliceRandom::shuffle` leaves `order` when
/// driven by a `StdRng` seeded with `seed` through `seed_from_u64`.
pub uninterp spec fn shuffled(order: Seq<usize>, seed: u64) -> Seq<usize>;

/// Relies on rand's `SeedableRng::seed_from_u64` for `StdRng` and
/// `SliceRandom::shuffle`: a generator fixed by the seed drives in-place
/// swaps, so the result depends on the slice and the seed alone, and holds
/// the same elements.
#[verifier::external_body]
fn shuffle_seeded(v: &mut Vec<usize>, seed: u64)
    ensures
        final(v)@ == shuffled(old(v)@, seed),
        final(v)@.len() == old(v)@.len(),
        final(v)@.to_multiset() == old(v)@.to_multiset(),
{
    let mut rng = StdRng::seed_from_u64(seed);
    v.as_mut_slice().shuffle(&mut rng)
}

/// The row positions `0, 1, ..., n - 1`.
pub open spec fn row_positions(n: nat) -> Seq<usize> {
    Seq::new(n, |i: int| i as usize)
}

/// `order` lists every row position below `n` exactly once.
pub open spec fn is_row_permutation(order: Seq<usize>, n: nat) -> bool {
    order.to_multiset() == row_positions(n).to_multiset()
}

/// The number of training rows out of `n` for a test fraction `num / den`:
/// the ceiling of `n * (1 - num / den)`.
pub open spec fn train_rows_spec(n: nat, num: nat, den: nat) -> nat {
    ((n * (den - num) + den - 1) as nat / den) as nat
}

/// The fraction of rows held out for testing, `numerator / denominator`,
/// strictly between zero and one.
#[derive(Clone, Copy, Debug, PartialEq, Eq)]
pub struct TestFraction {
    numerator: u32,
    denominator: u32,
}

impl View for TestFraction {
    type V = (nat, nat);

    closed spec fn view(&self) -> (nat, nat) {
        (self.numerator as nat, self.denominator as nat)
    }
}

/// A fraction `num / den` with `0 < num / den < 1`.
pub open spec fn fraction_valid(f: (nat, nat)) -> bool {
    0 < f.0 < f.1
}

impl TestFraction {
    #[verifier::type_invariant]
    spec fn inv(&self) -> bool {
        fraction_valid(self@)
    }

    /// The fraction `numerator / denominator`; fails with `InvalidTestFraction`
    /// unless it lies strictly between zero and one.
    pub fn new(numerator: u32, denominator: u32) -> (r: Result<TestFraction, DataError>)
        ensures
            match r {
                Ok(f) => f@ == (numerator as nat, denominator as nat),
                Err(e) => e == DataError::InvalidTestFraction,
            },
            r is Ok <==> 0 < numerator < denominator,
    {
        if 0 < numerator && numerator < denominator {
            Ok(TestFraction { numerator, denominator })
        } else {
            Err(DataError::InvalidTestFraction)
        }
    }

    pub fn numerator(&self) -> (r: u32)
        ensures
            r == self@.0,
    {
        self.numerator
    }

    pub fn denominator(&self) -> (r: u32)
        ensures
            r == self@.1,
    {
        self.denominator
    }
}

/// How many of `n` rows go to training under `fraction`.
pub fn train_row_count(n: usize, fraction: TestFraction) -> (r: usize)
    ensures
        r == train_rows_spec(n as nat, fraction@.0, fraction@.1),
        r <= n,
        n >= 1 ==> r >= 1,
{
    proof {
        use_type_invariant(&fraction);
    }
    let num = fraction.numerator as u128;
    let den = fraction.denominator as u128;
    let rows = n as u128;
    assert(rows * (den - num) <= rows * den) by (nonlinear_arith)
        requires
            num < den,
    ;
    assert(rows * den <= 0xffff_ffff_ffff_ffffu128 * 0xffff_ffffu128) by (nonlinear_arith)
        requires
            rows <= 0xffff_ffff_ffff_ffffu128,
            den <= 0xffff_ffffu128,
    ;
    let total = rows * (den - num) + (den - 1);
    let r = total / den;
    proof {
        lemma_train_rows_bounds(n as nat, num as nat, den as nat);
    }
    r as usize
}

proof fn lemma_train_rows_bounds(n: nat, num: nat, den: nat)
    requires
        0 < num < den,
    ensures
        train_rows_spec(n, num, den) <= n,
        n >= 1 ==> train_rows_spec(n, num, den) >= 1,
{
    let t = (n * (den - num) + den - 1) as nat;
    assert(t < (n + 1) * den) by (nonlinear_arith)
        requires
            t == n * (den - num) + den - 1,
            0 < num < den,
    ;
    assert(t / den < n + 1) by (nonlinear_arith)
        requires
            t < (n + 1) * den,
            den > 0,
    ;
    if n >= 1 {
        assert(t >= den) by (nonlinear_arith)
            requires
                t == n * (den - num) + den - 1,
                n >= 1,
                num < den,
        ;
        assert(t / den >= 1) by (nonlinear_arith)
            requires
                t >= den,
                den > 0,
        ;
    }
}

/// Every entry of a row permutation is a row position.
pub proof fn lemma_permutation_bounds(order: Seq<usize>, n: nat)
    requires
        is_row_permutation(order, n),
    ensures
        order.len() == n,
        forall|k: int| 0 <= k < order.len() ==> #[trigger] order[k] < n,
{
    broadcast use vstd::seq_lib::group_to_multiset_ensures;

    vstd::seq_lib::to_multiset_len(order);
    vstd::seq_lib::to_multiset_len(row_positions(n));
    assert(order.len() == row_positions(n).len());
    assert forall|k: int| 0 <= k < order.len() implies #[trigger] order[k] < n by {
        assert(order.contains(order[k]));
        assert(order.to_multiset().count(order[k]) > 0);
        assert(row_positions(n).contains(order[k]));
    }
}

/// Splits the rows of `table` at the training share of `fraction`: the rows
/// that `order` lists first go to training, the rest to testing.
///
/// Fails with `InsufficientData` when the table has fewer than two rows.
pub fn split_with_order(table: &Table, order: &Vec<usize>, fraction: TestFraction) -> (r: Result<
    (Table, Table),
    DataError,
>)
    requires
        is_row_permutation(order@, row_count_of(table@)),
    ensures
        match r {
            Ok((train, test)) => {
                let cut = train_rows_spec(row_count_of(table@), fraction@.0, fraction@.1) as int;
                &&& train@ == take_rows_spec(table@, order@.take(cut))
                &&& test@ == take_rows_spec(table@, order@.skip(cut))
            },
            Err(e) => e == DataError::InsufficientData,
        },
        r is Ok <==> row_count_of(table@) >= 2,
{
    let n = table.row_count();
    if n < 2 {
        return Err(DataError::InsufficientData);
    }
    proof {
        lemma_permutation_bounds(order@, n as nat);
    }
    let cut = train_row_count(n, fraction);
    let mut train_idx = order.clone();
    assert(train_idx@ =~= order@);
    let test_idx = train_idx.split_off(cut);
    assert(train_idx@ =~= order@.take(cut as int));
    assert(test_idx@ =~= order@.skip(cut as int));
    let train = table.take_rows(&train_idx);
    let test = table.take_rows(&test_idx);
    Ok((train, test))
}

/// Shuffles the rows of `table` with a generator seeded by `seed`, then
/// splits them at the training share of `fraction`.
///
/// Fails with `InsufficientData` when the table has fewer than two rows.
/// The split is fixed by the table, the fraction and the seed, so the same
/// seed reproduces it row for row; every row goes to exactly one side.
pub fn train_test_split(table: &Table, fraction: TestFraction, seed: u64) -> (r: Result<
    (Table, Table),
    DataError,
>)
    ensures
        match r {
            Ok((train, test)) => {
                let n = row_count_of(table@);
                let order = shuffled(row_positions(n), seed);
                let cut = train_rows_spec(n, fraction@.0, fraction@.1) as int;
                &&& is_row_permutation(order, n)
                &&& train@ == take_rows_spec(table@, order.take(cut))
                &&& test@ == take_rows_spec(table@, order.skip(cut))
            },
            Err(e) => e == DataError::InsufficientData,
        },
        r is Ok <==> row_count_of(table@) >= 2,
{
    let n = table.row_count();
    if n < 2 {
        return Err(DataError::InsufficientData);
    }
    let mut order: Vec<usize> = Vec::new();
    let mut i: usize = 0;
    while i < n
        invariant
            0 <= i <= n,
            order@ == row_positions(i as nat),
        decreases n - i,
    {
        order.push(i);
        i = i + 1;
        assert(order@ =~= row_positions(i as nat));
    }
    shuffle_seeded(&mut order, seed);
    let r = split_with_order(table, &order, fraction);
    assert(is_row_permutation(order@, row_count_of(table@)));
    r
}

/// Projects `table` onto the predictor columns, in the shared feature
/// order, and onto the target column.
///
/// Fails with `MissingColumn`, naming the first required column (predictors
/// first, then the target) that the table lacks.
pub fn split_features_and_target(table: &Table) -> (r: Result<(Table, Table), DataError>)
    ensures
        match r {
            Ok((features, target)) => {
                &&& features@ == select_spec(table@, feature_names_spec())
                &&& target@ == select_spec(table@, seq![target_name_spec()])
            },
            Err(DataError::MissingColumn(n)) => missing_first(table@, required_names_spec(), n@),
            Err(_) => false,
        },
        r is Ok <==> all_present(table@, required_names_spec()),
{
    proof {
        lemma_required_names_distinct();
    }
    let names = feature_names();
    let features = match table.select(&names) {
        Ok(t) => t,
        Err(DataError::MissingColumn(n)) => {
            proof {
                let k = choose|k: int|
                    0 <= k < feature_names_spec().len() && feature_names_spec()[k] == n@
                        && !has_column(table@, n@) && #[trigger] all_present(
                        table@,
                        feature_names_spec().take(k),
                    );
                assert(required_names_spec()[k] == n@);
                assert(required_names_spec().take(k) =~= feature_names_spec().take(k));
                assert(all_present(table@, required_names_spec().take(k)));
            }
            return Err(DataError::MissingColumn(n));
        },
        Err(e) => {
            return Err(e);
        },
    };
    assert(all_present(table@, feature_names_spec()));
    let mut target_names: Vec<String> = Vec::new();
    target_names.push(target_name());
    assert(string_views(target_names@) =~= seq![target_name_spec()]);
    let target = match table.select(&target_names) {
        Ok(t) => t,
        Err(DataError::MissingColumn(n)) => {
            proof {
                assert(n@ == target_name_spec());
                assert(required_names_spec().take(13) =~= feature_names_spec());
                assert(required_names_spec()[13] == target_name_spec());
                assert(all_present(table@, required_names_spec().take(13)));
            }
            return Err(DataError::MissingColumn(n));
        },
        Err(e) => {
            return Err(e);
        },
    };
    proof {
        assert(has_column(table@, seq![target_name_spec()][0]));
        assert forall|k: int| 0 <= k < required_names_spec().len() implies #[trigger] has_column(
            table@,
            required_names_spec()[k],
        ) by {
            if k < 13 {
                assert(required_names_spec()[k] == feature_names_spec()[k]);
            }
        }
    }
    Ok((features, target))
}

/// Splitting the rows of a table of `n >= 2` rows by any row permutation
/// sends every row to exactly one side: the two sides hold `n` rows between
/// them, share no row position, and together list each position below `n`
/// once.
pub proof fn lemma_split_partitions_rows(
    cols: Seq<ColumnView>,
    fraction: (nat, nat),
    order: Seq<usize>,
)
    requires
        table_wf(cols),
        2 <= row_count_of(cols) <= usize::MAX,
        fraction_valid(fraction),
        is_row_permutation(order, row_count_of(cols)),
    ensures
        ({
            let n = row_count_of(cols);
            let cut = train_rows_spec(n, fraction.0, fraction.1) as int;
            let train = order.take(cut);
            let test = order.skip(cut);
            &&& row_count_of(take_rows_spec(cols, train)) + row_count_of(take_rows_spec(cols, test))
                == n
            &&& train.len() + test.len() == n
            &&& forall|i: int, j: int|
                0 <= i < train.len() && 0 <= j < test.len() ==> train[i] != test[j]
            &&& (train + test).to_multiset() == row_positions(n).to_multiset()
            &&& forall|p: usize| p < n ==> #[trigger] (train + test).to_multiset().count(p) == 1
        }),
{
    broadcast use vstd::seq_lib::group_to_multiset_ensures;

    let n = row_count_of(cols);
    let cut = train_rows_spec(n, fraction.0, fraction.1) as int;
    lemma_train_rows_bounds(n, fraction.0, fraction.1);
    lemma_permutation_bounds(order, n);
    let train = order.take(cut);
    let test = order.skip(cut);
    assert(train + test =~= order);
    let positions = row_positions(n);
    assert forall|i: int, j: int| 0 <= i < positions.len() && 0 <= j < positions.len() && i != j
        implies positions[i] != positions[j] by {
        assert(positions[i] == i as usize);
        assert(positions[j] == j as usize);
    }
    assert(positions.no_duplicates());
    positions.lemma_multiset_has_no_duplicates();
    order.lemma_multiset_has_no_duplicates_conv();
    assert forall|i: int, j: int| 0 <= i < train.len() && 0 <= j < test.len() implies train[i]
        != test[j] by {
        assert(train[i] == order[i]);
        assert(test[j] == order[cut + j]);
    }
    assert forall|p: usize| p < n implies #[trigger] (train + test).to_multiset().count(p) == 1 by {
        assert(positions[p as int] == p);
        assert(positions.contains(p));
    }
    let tr = take_rows_spec(cols, train);
    let te = take_rows_spec(cols, test);
    assert(tr[0].1.len() == train.len());
    assert(te[0].1.len() == test.len());
}

/// Projecting a table that holds every required column onto the predictors
/// and onto the target, then joining the two side by side, succeeds and
/// gives back the required columns of the table unchanged, each exactly
/// once: no column is invented, none is repeated, and every required column
/// is kept. Where the table holds no other column, every one of its columns
/// comes back.
pub proof fn lemma_features_target_rejoin(cols: Seq<ColumnView>)
    requires
        table_wf(cols),
        all_present(cols, required_names_spec()),
    ensures
        ({
            let x = select_spec(cols, feature_names_spec());
            let y = select_spec(cols, seq![target_name_spec()]);
            &&& row_count_of(x) == row_count_of(y)
            &&& forall|m: Seq<char>| !(#[trigger] has_column(x, m) && has_column(y, m))
            &&& table_wf(x + y)
            &&& x + y == select_spec(cols, required_names_spec())
            &&& forall|k: int| 0 <= k < (x + y).len() ==> cols.contains(#[trigger] (x + y)[k])
            &&& forall|k: int|
                0 <= k < cols.len() && required_names_spec().contains(#[trigger] cols[k].0)
                    ==> (x + y).contains(cols[k])
        }),
{
    lemma_required_names_distinct();
    let req = required_names_spec();
    let feats = feature_names_spec();
    let x = select_spec(cols, feats);
    let y = select_spec(cols, seq![target_name_spec()]);
    let s = select_spec(cols, req);
    assert forall|k: int| 0 <= k < req.len() implies 0 <= column_index(cols, #[trigger] req[k])
        < cols.len() && cols[column_index(cols, req[k])].0 == req[k] by {
        assert(has_column(cols, req[k]));
    }
    assert(x + y =~= s) by {
        assert forall|k: int| 0 <= k < feats.len() implies #[trigger] x[k] == s[k] by {
            assert(req[k] == feats[k]);
        }
        assert(y[0] == s[13]);
    }
    assert forall|k: int| 0 <= k < s.len() implies #[trigger] s[k].0 == req[k] by {
        let c = column_index(cols, req[k]);
        assert(cols[c].0 == req[k]);
    }
    assert(names_of(s) =~= req);
    assert forall|k: int| 0 <= k < s.len() implies cols.contains(#[trigger] s[k]) by {
        let c = column_index(cols, req[k]);
        assert(cols[c] == s[k]);
    }
    assert forall|k: int| 0 <= k < s.len() implies #[trigger] s[k].1.len() == row_count_of(s) by {
        let c = column_index(cols, req[k]);
        let c0 = column_index(cols, req[0]);
        assert(cols[c].1.len() == row_count_of(cols));
        assert(cols[c0].1.len() == row_count_of(cols));
    }
    assert(row_count_of(x) == row_count_of(y)) by {
        assert(x[0] == s[0]);
        assert(y[0] == s[13]);
    }
    assert forall|m: Seq<char>| !(#[trigger] has_column(x, m) && has_column(y, m)) by {
        if has_column(x, m) && has_column(y, m) {
            let i = choose|i: int| 0 <= i < x.len() && #[trigger] x[i].0 == m;
            let j = choose|j: int| 0 <= j < y.len() && #[trigger] y[j].0 == m;
            assert(s[i].0 == s[13].0);
            assert(names_of(s)[i] == names_of(s)[13]);
        }
    }
    assert forall|k: int|
        0 <= k < cols.len() && req.contains(#[trigger] cols[k].0) implies s.contains(cols[k]) by {
        let i = choose|i: int| 0 <= i < req.len() && req[i] == cols[k].0;
        let c = column_index(cols, req[i]);
        assert(cols[c].0 == cols[k].0);
        assert(names_of(cols)[c] == names_of(cols)[k]);
        assert(s[i] == cols[k]);
    }
}

} // verus!
