use vstd::prelude::*;

use crate::table::string_views;

verus! {

/// How many predictors the model reads.
pub const FEATURE_COUNT: usize = 13;

/// The predictor columns, in the order that training and inference share.
pub open spec fn feature_names_spec() -> Seq<Seq<char>> {
    seq![
        "crim"@,
        "zn"@,
        "indus"@,
        "chas"@,
        "nox"@,
        "rm"@,
        "age"@,
        "dis"@,
        "rad"@,
        "tax"@,
        "ptratio"@,
        "b"@,
        "lstat"@,
    ]
}

/// The column that the model learns to predict.
pub open spec fn target_name_spec() -> Seq<char> {
    "medv"@
}

/// The predictors followed by the target: every column that training reads.
pub open spec fn required_names_spec() -> Seq<Seq<char>> {
    feature_names_spec().push(target_name_spec())
}

/// The required names are pairwise distinct.
pub proof fn lemma_required_names_distinct()
    ensures
        required_names_spec().no_duplicates(),
        feature_names_spec().no_duplicates(),
        !feature_names_spec().contains(target_name_spec()),
        feature_names_spec().len() == FEATURE_COUNT,
{
    reveal_strlit("crim");
    reveal_strlit("zn");
    reveal_strlit("indus");
    reveal_strlit("chas");
    reveal_strlit("nox");
    reveal_strlit("rm");
    reveal_strlit("age");
    reveal_strlit("dis");
    reveal_strlit("rad");
    reveal_strlit("tax");
    reveal_strlit("ptratio");
    reveal_strlit("b");
    reveal_strlit("lstat");
    reveal_strlit("medv");
    let r = required_names_spec();
    assert forall|i: int, j: int| 0 <= i < r.len() && 0 <= j < r.len() && i != j implies r[i]
        != r[j] by {
        assert(r[i].len() != r[j].len() || r[i][0] != r[j][0] || r[i][1] != r[j][1]);
    }
    assert(r.drop_last() =~= feature_names_spec());
    if feature_names_spec().contains(target_name_spec()) {
        let k = choose|k: int|
            0 <= k < feature_names_spec().len() && feature_names_spec()[k] == target_name_spec();
        assert(r[k] == r[13]);
    }
}

/// The predictor column names, in the shared order.
pub fn feature_names() -> (r: Vec<String>)
    ensures
        string_views(r@) == feature_names_spec(),
{
    let r = vec![
        String::from_str("crim"),
        String::from_str("zn"),
        String::from_str("indus"),
        String::from_str("chas"),
        String::from_str("nox"),
        String::from_str("rm"),
        String::from_str("age"),
        String::from_str("dis"),
        String::from_str("rad"),
        String::from_str("tax"),
        String::from_str("ptratio"),
        String::from_str("b"),
        String::from_str("lstat"),
    ];
    assert(string_views(r@) =~= feature_names_spec());
    r
}

/// The target column name.
pub fn target_name() -> (r: String)
    ensures
        r@ == target_name_spec(),
{
    String::from_str("medv")
}

} // verus!
