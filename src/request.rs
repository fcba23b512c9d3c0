use vstd::prelude::*;

use crate::features::{feature_names, feature_names_spec, lemma_required_names_distinct, FEATURE_COUNT};

verus! {

/// The bits of a 64-bit float hold a finite number: the exponent field is
/// not all ones (all ones is an infinity or a NaN).
pub open spec fn is_finite_bits(bits: u64) -> bool {
    (bits >> 52u64) & 0x7ffu64 != 0x7ffu64
}

/// Whether the float with these bits is finite.
pub fn finite_bits(bits: u64) -> (r: bool)
    ensures
        r == is_finite_bits(bits),
{
    (bits >> 52u64) & 0x7ffu64 != 0x7ffu64
}

/// Why a prediction request was turned away.
#[derive(Debug, Clone, Copy, PartialEq, Eq)]
pub enum RequestError {
    /// A required field is missing or repeated, or an unknown field is present.
    MalformedRequest,
    /// A field holds an infinity or a NaN.
    NonFiniteInput,
}

/// One named numeric field of a raw request; `value` holds the bits of a
/// 64-bit float.
pub struct RequestField {
    pub name: String,
    pub value: u64,
}

impl View for RequestField {
    type V = (Seq<char>, u64);

    open spec fn view(&self) -> (Seq<char>, u64) {
        (self.name@, self.value)
    }
}

/// The views of a list of fields.
pub open spec fn field_views(fs: Seq<RequestField>) -> Seq<(Seq<char>, u64)> {
    fs.map_values(|f: RequestField| f@)
}

/// Exactly one field of `fs` is called `name`.
pub open spec fn named_once(fs: Seq<(Seq<char>, u64)>, name: Seq<char>) -> bool {
    exists|i: int|
        0 <= i < fs.len() && #[trigger] fs[i].0 == name && forall|j: int|
            0 <= j < fs.len() && j != i ==> #[trigger] fs[j].0 != name
}

/// The value of the field called `name` (meaningful where there is one).
pub open spec fn value_of(fs: Seq<(Seq<char>, u64)>, name: Seq<char>) -> u64 {
    fs[choose|i: int| 0 <= i < fs.len() && #[trigger] fs[i].0 == name].1
}

/// `fs` holds each predictor exactly once and nothing else.
pub open spec fn well_shaped(fs: Seq<(Seq<char>, u64)>) -> bool {
    &&& fs.len() == feature_names_spec().len()
    &&& forall|k: int| 0 <= k < feature_names_spec().len() ==> #[trigger] named_once(fs, feature_names_spec()[k])
}

/// The values of `fs` in the shared feature order.
pub open spec fn ordered_values(fs: Seq<(Seq<char>, u64)>) -> Seq<u64> {
    feature_names_spec().map_values(|n: Seq<char>| value_of(fs, n))
}

/// Every value of `vs` is finite.
pub open spec fn all_finite(vs: Seq<u64>) -> bool {
    forall|k: int| 0 <= k < vs.len() ==> #[trigger] is_finite_bits(vs[k])
}

/// Checks a raw request and lays its values out in the shared feature order.
///
/// Fails with `MalformedRequest` unless the request holds each predictor
/// exactly once and nothing else, then with `NonFiniteInput` when a value
/// is an infinity or a NaN.
pub fn validate_request(fields: &Vec<RequestField>) -> (r: Result<Vec<u64>, RequestError>)
    ensures
        match r {
            Ok(v) => v@ == ordered_values(field_views(fields@)),
            Err(RequestError::MalformedRequest) => !well_shaped(field_views(fields@)),
            Err(RequestError::NonFiniteInput) => well_shaped(field_views(fields@)) && !all_finite(
                ordered_values(field_views(fields@)),
            ),
        },
        r is Ok <==> well_shaped(field_views(fields@)) && all_finite(
            ordered_values(field_views(fields@)),
        ),
{
    proof {
        lemma_required_names_distinct();
    }
    let ghost fs = field_views(fields@);
    let names = feature_names();
    if fields.len() != FEATURE_COUNT {
        return Err(RequestError::MalformedRequest);
    }
    let mut values: Vec<u64> = Vec::new();
    let mut k: usize = 0;
    while k < FEATURE_COUNT
        invariant
            0 <= k <= FEATURE_COUNT,
            feature_names_spec().len() == FEATURE_COUNT,
            fs == field_views(fields@),
            fs.len() == FEATURE_COUNT,
            names@.len() == FEATURE_COUNT,
            crate::table::string_views(names@) == feature_names_spec(),
            values@.len() == k,
            forall|a: int| 0 <= a < k ==> #[trigger] named_once(fs, feature_names_spec()[a]),
            forall|a: int|
                0 <= a < k ==> #[trigger] values@[a] == value_of(fs, feature_names_spec()[a]),
        decreases FEATURE_COUNT - k,
    {
        let ghost name = feature_names_spec()[k as int];
        assert(names@[k as int]@ == name);
        let mut found: Option<usize> = None;
        let mut i: usize = 0;
        while i < fields.len()
            invariant
                0 <= i <= fields@.len(),
                fs == field_views(fields@),
                fs.len() == fields@.len(),
                names@[k as int]@ == name,
                k < names@.len(),
                k < FEATURE_COUNT,
                feature_names_spec().len() == FEATURE_COUNT,
                name == feature_names_spec()[k as int],
                match found {
                    Some(p) => p < i && fs[p as int].0 == name && forall|j: int|
                        0 <= j < i && j != p ==> #[trigger] fs[j].0 != name,
                    None => forall|j: int| 0 <= j < i ==> #[trigger] fs[j].0 != name,
                },
            decreases fields@.len() - i,
        {
            if fields[i].name == names[k] {
                assert(fs[i as int].0 == name);
                if let Some(p) = found {
                    assert(fs[p as int].0 == name);
                    assert(!named_once(fs, name)) by {
                        if named_once(fs, name) {
                            let w = choose|w: int|
                                0 <= w < fs.len() && #[trigger] fs[w].0 == name && forall|j: int|
                                    0 <= j < fs.len() && j != w ==> #[trigger] fs[j].0 != name;
                            if w != p {
                                assert(fs[p as int].0 != name);
                            } else {
                                assert(fs[i as int].0 != name);
                            }
                        }
                    }
                    assert(!well_shaped(fs)) by {
                        assert(0 <= k < feature_names_spec().len());
                        assert(!named_once(fs, feature_names_spec()[k as int]));
                    }
                    return Err(RequestError::MalformedRequest);
                }
                found = Some(i);
            }
            i = i + 1;
        }
        match found {
            Some(p) => {
                assert(named_once(fs, name));
                assert(value_of(fs, name) == fs[p as int].1);
                values.push(fields[p].value);
            },
            None => {
                assert(!named_once(fs, name));
                assert(!well_shaped(fs));
                return Err(RequestError::MalformedRequest);
            },
        }
        k = k + 1;
    }
    assert(well_shaped(fs));
    assert(values@ =~= ordered_values(fs));
    let mut j: usize = 0;
    while j < FEATURE_COUNT
        invariant
            0 <= j <= FEATURE_COUNT,
            values@.len() == FEATURE_COUNT,
            values@ == ordered_values(fs),
            fs == field_views(fields@),
            well_shaped(fs),
            forall|a: int| 0 <= a < j ==> #[trigger] is_finite_bits(values@[a]),
        decreases FEATURE_COUNT - j,
    {
        if !finite_bits(values[j]) {
            assert(!all_finite(ordered_values(fs))) by {
                assert(!is_finite_bits(ordered_values(fs)[j as int]));
            }
            return Err(RequestError::NonFiniteInput);
        }
        j = j + 1;
    }
    Ok(values)
}

/// A checked prediction request: one value per predictor, each holding the
/// bits of a 64-bit float.
pub struct PredictionRequest {
    pub crim: u64,
    pub zn: u64,
    pub indus: u64,
    pub chas: u64,
    pub nox: u64,
    pub rm: u64,
    pub age: u64,
    pub dis: u64,
    pub rad: u64,
    pub tax: u64,
    pub ptratio: u64,
    pub b: u64,
    pub lstat: u64,
}

impl View for PredictionRequest {
    type V = Seq<u64>;

    /// The values in the shared feature order.
    open spec fn view(&self) -> Seq<u64> {
        seq![
            self.crim,
            self.zn,
            self.indus,
            self.chas,
            self.nox,
            self.rm,
            self.age,
            self.dis,
            self.rad,
            self.tax,
            self.ptratio,
            self.b,
            self.lstat,
        ]
    }
}

impl PredictionRequest {
    /// Checks a raw request as `validate_request` does and keeps its values.
    pub fn from_fields(fields: &Vec<RequestField>) -> (r: Result<PredictionRequest, RequestError>)
        ensures
            match r {
                Ok(p) => p@ == ordered_values(field_views(fields@)),
                Err(RequestError::MalformedRequest) => !well_shaped(field_views(fields@)),
                Err(RequestError::NonFiniteInput) => well_shaped(field_views(fields@))
                    && !all_finite(ordered_values(field_views(fields@))),
            },
            r is Ok <==> well_shaped(field_views(fields@)) && all_finite(
                ordered_values(field_views(fields@)),
            ),
    {
        let v = validate_request(fields)?;
        proof {
            lemma_required_names_distinct();
        }
        let p = PredictionRequest {
            crim: v[0],
            zn: v[1],
            indus: v[2],
            chas: v[3],
            nox: v[4],
            rm: v[5],
            age: v[6],
            dis: v[7],
            rad: v[8],
            tax: v[9],
            ptratio: v[10],
            b: v[11],
            lstat: v[12],
        };
        assert(p@ =~= v@);
        Ok(p)
    }

    /// The values in the shared feature order.
    pub fn to_features(&self) -> (r: Vec<u64>)
        ensures
            r@ == self@,
    {
        let mut r: Vec<u64> = Vec::new();
        r.push(self.crim);
        r.push(self.zn);
        r.push(self.indus);
        r.push(self.chas);
        r.push(self.nox);
        r.push(self.rm);
        r.push(self.age);
        r.push(self.dis);
        r.push(self.rad);
        r.push(self.tax);
        r.push(self.ptratio);
        r.push(self.b);
        r.push(self.lstat);
        assert(r@ =~= self@);
        r
    }
}

/// The answer to a prediction request: the bits of the predicted value.
pub struct PredictionResponse {
    pub prediction: u64,
}

} // verus!
