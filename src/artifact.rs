use vstd::prelude::*;

use vstd::bytes::{
    lemma_auto_spec_u32_to_from_le_bytes, lemma_auto_spec_u64_to_from_le_bytes,
    spec_u32_from_le_bytes, spec_u32_to_le_bytes, spec_u64_from_le_bytes, spec_u64_to_le_bytes,
    u32_from_le_bytes, u32_to_le_bytes, u64_from_le_bytes, u64_to_le_bytes,
};
use vstd::slice::slice_subrange;

use crate::features::{feature_names, feature_names_spec};

verus! {

// An artifact is laid out as
//   magic (4 bytes) | name count (u64) | names | model payload (the rest)
// and each name as
//   length in characters (u64) | one u32 code point per character.
// Integers are little-endian.

/// Why an artifact could not be opened.
#[derive(Debug, Clone, Copy, PartialEq, Eq)]
pub enum ArtifactError {
    /// The bytes are not a well-framed artifact.
    CorruptArtifact,
    /// The artifact records a feature order other than the one this library serves.
    FeatureOrderMismatch,
}

/// The four bytes that open every artifact: `HPM1`.
pub open spec fn magic() -> Seq<u8> {
    seq![0x48u8, 0x50u8, 0x4du8, 0x31u8]
}

/// The code points of a name.
pub open spec fn codes_of(name: Seq<char>) -> Seq<u32> {
    name.map_values(|c: char| c as u32)
}

/// The code points of every name.
pub open spec fn all_codes(names: Seq<Seq<char>>) -> Seq<Seq<u32>> {
    names.map_values(|n: Seq<char>| codes_of(n))
}

/// The views of a list of code-point vectors.
pub open spec fn nested_view(ns: Seq<Vec<u32>>) -> Seq<Seq<u32>> {
    ns.map_values(|v: Vec<u32>| v@)
}

/// Each word as its four little-endian bytes.
pub open spec fn word_chunks(ws: Seq<u32>) -> Seq<Seq<u8>> {
    ws.map_values(|w: u32| spec_u32_to_le_bytes(w))
}

/// The words, four little-endian bytes each.
pub open spec fn encode_words(ws: Seq<u32>) -> Seq<u8> {
    word_chunks(ws).flatten()
}

/// A name: its length, then its code points.
pub open spec fn encode_name(ws: Seq<u32>) -> Seq<u8> {
    spec_u64_to_le_bytes(ws.len() as u64) + encode_words(ws)
}

/// Each name encoded on its own.
pub open spec fn name_chunks(ns: Seq<Seq<u32>>) -> Seq<Seq<u8>> {
    ns.map_values(|n: Seq<u32>| encode_name(n))
}

/// The names, one after the other.
pub open spec fn encode_names(ns: Seq<Seq<u32>>) -> Seq<u8> {
    name_chunks(ns).flatten()
}

/// The artifact that records the feature order `ns` and carries `model`.
pub open spec fn artifact_bytes(ns: Seq<Seq<u32>>, model: Seq<u8>) -> Seq<u8> {
    magic() + spec_u64_to_le_bytes(ns.len() as u64) + encode_names(ns) + model
}

/// Every length fits the u64 fields of the format.
pub open spec fn lengths_fit(ns: Seq<Seq<u32>>) -> bool {
    &&& ns.len() <= u64::MAX
    &&& forall|k: int| 0 <= k < ns.len() ==> #[trigger] ns[k].len() <= u64::MAX
}

/// The little-endian u32 at `off`.
pub open spec fn word_at(b: Seq<u8>, off: int) -> u32 {
    spec_u32_from_le_bytes(b.subrange(off, off + 4))
}

/// The little-endian u64 at `off`.
pub open spec fn count_at(b: Seq<u8>, off: int) -> u64 {
    spec_u64_from_le_bytes(b.subrange(off, off + 8))
}

/// The name at the front of `b`, and how many bytes it takes.
pub open spec fn parse_name(b: Seq<u8>) -> Option<(Seq<u32>, int)> {
    if b.len() < 8 {
        None
    } else {
        let l = count_at(b, 0) as int;
        if b.len() < 8 + 4 * l {
            None
        } else {
            Some((Seq::new(l as nat, |i: int| word_at(b, 8 + 4 * i)), 8 + 4 * l))
        }
    }
}

/// Reads `remaining` names from the front of `b` after those in `acc`;
/// gives all of them and the bytes that follow.
pub open spec fn parse_names(b: Seq<u8>, remaining: nat, acc: Seq<Seq<u32>>) -> Option<
    (Seq<Seq<u32>>, Seq<u8>),
>
    decreases remaining,
{
    if remaining == 0 {
        Some((acc, b))
    } else {
        match parse_name(b) {
            None => None,
            Some((n, used)) => parse_names(b.skip(used), (remaining - 1) as nat, acc.push(n)),
        }
    }
}

/// The feature order and the model payload that `b` frames, if it is an artifact.
pub open spec fn parse_artifact(b: Seq<u8>) -> Option<(Seq<Seq<u32>>, Seq<u8>)> {
    if b.len() < 12 || b.take(4) != magic() {
        None
    } else {
        parse_names(b.skip(12), count_at(b, 4) as nat, seq![])
    }
}

proof fn lemma_encode_words(ws: Seq<u32>, rest: Seq<u8>)
    ensures
        encode_words(ws).len() == 4 * ws.len(),
        forall|i: int| 0 <= i < ws.len() ==> #[trigger] word_at(encode_words(ws) + rest, 4 * i) == ws[i],
    decreases ws.len(),
{
    lemma_auto_spec_u32_to_from_le_bytes();
    if ws.len() == 0 {
        assert(word_chunks(ws) =~= Seq::<Seq<u8>>::empty());
    } else {
        let init = ws.drop_last();
        let last = spec_u32_to_le_bytes(ws.last());
        lemma_encode_words(init, last + rest);
        assert(word_chunks(ws) =~= word_chunks(init).push(last));
        word_chunks(init).lemma_flatten_push(last);
        let e = encode_words(ws);
        assert(e =~= encode_words(init) + last);
        assert(e + rest =~= encode_words(init) + (last + rest));
        assert forall|i: int| 0 <= i < ws.len() implies #[trigger] word_at(e + rest, 4 * i)
            == ws[i] by {
            if i < init.len() {
                assert(word_at(encode_words(init) + (last + rest), 4 * i) == init[i]);
            } else {
                assert((e + rest).subrange(4 * i, 4 * i + 4) =~= last);
            }
        }
    }
}

proof fn lemma_parse_name(n: Seq<u32>, rest: Seq<u8>)
    requires
        n.len() <= u64::MAX,
    ensures
        parse_name(encode_name(n) + rest) == Some((n, 8 + 4 * (n.len() as int))),
        (encode_name(n) + rest).skip(8 + 4 * (n.len() as int)) == rest,
{
    lemma_auto_spec_u64_to_from_le_bytes();
    lemma_encode_words(n, rest);
    let len_bytes = spec_u64_to_le_bytes(n.len() as u64);
    let b = encode_name(n) + rest;
    let tail = encode_words(n) + rest;
    assert(b =~= len_bytes + tail);
    assert(b.subrange(0, 8) =~= len_bytes);
    assert(count_at(b, 0) == n.len());
    assert forall|i: int| 0 <= i < n.len() implies #[trigger] word_at(b, 8 + 4 * i) == n[i] by {
        assert(b.subrange(8 + 4 * i, 8 + 4 * i + 4) =~= tail.subrange(4 * i, 4 * i + 4));
        assert(word_at(tail, 4 * i) == n[i]);
    }
    let parsed = Seq::new(n.len(), |i: int| word_at(b, 8 + 4 * i));
    assert(parsed =~= n);
    assert(b.skip(8 + 4 * (n.len() as int)) =~= rest);
}

proof fn lemma_parse_names(ns: Seq<Seq<u32>>, rest: Seq<u8>, acc: Seq<Seq<u32>>)
    requires
        lengths_fit(ns),
    ensures
        parse_names(encode_names(ns) + rest, ns.len(), acc) == Some((acc + ns, rest)),
    decreases ns.len(),
{
    if ns.len() == 0 {
        assert(name_chunks(ns) =~= Seq::<Seq<u8>>::empty());
        assert(encode_names(ns) + rest =~= rest);
        assert(acc + ns =~= acc);
    } else {
        let tail = ns.drop_first();
        assert(name_chunks(ns).drop_first() =~= name_chunks(tail));
        assert(encode_names(ns) == encode_name(ns[0]) + encode_names(tail));
        let b = encode_names(ns) + rest;
        assert(b =~= encode_name(ns[0]) + (encode_names(tail) + rest));
        lemma_parse_name(ns[0], encode_names(tail) + rest);
        assert(lengths_fit(tail)) by {
            assert forall|k: int| 0 <= k < tail.len() implies #[trigger] tail[k].len()
                <= u64::MAX by {
                assert(tail[k] == ns[k + 1]);
            }
        }
        lemma_parse_names(tail, rest, acc.push(ns[0]));
        assert(acc.push(ns[0]) + tail =~= acc + ns);
    }
}

/// Opening the framing of an artifact gives back exactly the feature order
/// and the model payload that were framed.
pub proof fn lemma_artifact_round_trip(ns: Seq<Seq<u32>>, model: Seq<u8>)
    requires
        lengths_fit(ns),
    ensures
        parse_artifact(artifact_bytes(ns, model)) == Some((ns, model)),
{
    lemma_auto_spec_u64_to_from_le_bytes();
    let b = artifact_bytes(ns, model);
    let count = spec_u64_to_le_bytes(ns.len() as u64);
    assert(b =~= magic() + (count + (encode_names(ns) + model)));
    assert(b.take(4) =~= magic());
    assert(b.subrange(4, 12) =~= count);
    assert(b.skip(12) =~= encode_names(ns) + model);
    lemma_parse_names(ns, model, seq![]);
    assert(seq![] + ns =~= ns);
}

/// The little-endian u32 at `pos` of `bytes`.
fn read_u32(bytes: &Vec<u8>, pos: usize) -> (r: u32)
    requires
        pos + 4 <= bytes@.len() <= usize::MAX,
    ensures
        r == word_at(bytes@, pos as int),
{
    u32_from_le_bytes(slice_subrange(bytes.as_slice(), pos, pos + 4))
}

/// The little-endian u64 at `pos` of `bytes`.
fn read_u64(bytes: &Vec<u8>, pos: usize) -> (r: u64)
    requires
        pos + 8 <= bytes@.len() <= usize::MAX,
    ensures
        r == count_at(bytes@, pos as int),
{
    u64_from_le_bytes(slice_subrange(bytes.as_slice(), pos, pos + 8))
}

/// Appends all of `more` to `out`.
fn append_bytes(out: &mut Vec<u8>, more: &Vec<u8>)
    ensures
        final(out)@ == old(out)@ + more@,
{
    let mut i: usize = 0;
    while i < more.len()
        invariant
            0 <= i <= more@.len(),
            out@ == old(out)@ + more@.take(i as int),
        decreases more@.len() - i,
    {
        out.push(more[i]);
        i = i + 1;
        assert(out@ =~= old(out)@ + more@.take(i as int));
    }
    assert(more@.take(i as int) =~= more@);
}

/// Reads an artifact: the feature order it records and its model payload.
///
/// Fails with `CorruptArtifact` exactly when the bytes are not a
/// well-framed artifact.
pub fn decode_artifact(bytes: &Vec<u8>) -> (r: Result<(Vec<Vec<u32>>, Vec<u8>), ArtifactError>)
    ensures
        match r {
            Ok((ns, model)) => parse_artifact(bytes@) == Some((nested_view(ns@), model@)),
            Err(e) => e == ArtifactError::CorruptArtifact && parse_artifact(bytes@) is None,
        },
{
    let len = bytes.len();
    if len < 12 {
        return Err(ArtifactError::CorruptArtifact);
    }
    if bytes[0] != 0x48u8 || bytes[1] != 0x50u8 || bytes[2] != 0x4du8 || bytes[3] != 0x31u8 {
        assert(bytes@.take(4) != magic()) by {
            if bytes@.take(4) == magic() {
                assert(bytes@.take(4)[0] == bytes@[0]);
                assert(bytes@.take(4)[1] == bytes@[1]);
                assert(bytes@.take(4)[2] == bytes@[2]);
                assert(bytes@.take(4)[3] == bytes@[3]);
            }
        }
        return Err(ArtifactError::CorruptArtifact);
    }
    assert(bytes@.take(4) =~= magic());
    let count = read_u64(bytes, 4);
    let mut pos: usize = 12;
    let mut names: Vec<Vec<u32>> = Vec::new();
    let mut i: u64 = 0;
    assert(nested_view(names@) =~= seq![]);
    while i < count
        invariant
            12 <= pos <= len,
            len == bytes@.len(),
            i <= count,
            parse_artifact(bytes@) == parse_names(
                bytes@.skip(pos as int),
                (count - i) as nat,
                nested_view(names@),
            ),
        decreases count - i,
    {
        let ghost b = bytes@.skip(pos as int);
        if len - pos < 8 {
            assert(parse_name(b) is None);
            return Err(ArtifactError::CorruptArtifact);
        }
        let l = read_u64(bytes, pos);
        assert(b.subrange(0, 8) =~= bytes@.subrange(pos as int, pos + 8));
        assert(l == count_at(b, 0));
        let avail = len - pos - 8;
        if ((avail / 4) as u64) < l {
            assert(b.len() < 8 + 4 * (l as int)) by (nonlinear_arith)
                requires
                    b.len() == avail + 8,
                    (avail / 4) < l,
            ;
            assert(parse_name(b) is None);
            return Err(ArtifactError::CorruptArtifact);
        }
        let lu = l as usize;
        assert(4 * lu <= avail) by (nonlinear_arith)
            requires
                lu <= avail / 4,
        ;
        let mut codes: Vec<u32> = Vec::new();
        let mut j: usize = 0;
        while j < lu
            invariant
                0 <= j <= lu,
                4 * lu <= avail,
                avail == len - pos - 8,
                len == bytes@.len(),
                b == bytes@.skip(pos as int),
                codes@.len() == j,
                forall|k: int| 0 <= k < j ==> #[trigger] codes@[k] == word_at(b, 8 + 4 * k),
            decreases lu - j,
        {
            let at = pos + 8 + 4 * j;
            let w = read_u32(bytes, at);
            assert(b.subrange(8 + 4 * j, 8 + 4 * j + 4) =~= bytes@.subrange(at as int, at + 4));
            codes.push(w);
            j = j + 1;
        }
        let ghost parsed = parse_name(b);
        assert(parsed == Some((codes@, 8 + 4 * (l as int)))) by {
            assert(codes@ =~= Seq::new(l as nat, |k: int| word_at(b, 8 + 4 * k)));
        }
        let ghost before = names@;
        names.push(codes);
        assert(nested_view(names@) =~= nested_view(before).push(parsed.unwrap().0));
        pos = pos + 8 + 4 * lu;
        assert(bytes@.skip(pos as int) =~= b.skip(8 + 4 * (l as int)));
        i = i + 1;
    }
    let model = slice_subrange(bytes.as_slice(), pos, len);
    let mut payload: Vec<u8> = Vec::new();
    let mut k: usize = 0;
    while k < model.len()
        invariant
            0 <= k <= model@.len(),
            payload@ == model@.take(k as int),
        decreases model@.len() - k,
    {
        payload.push(model[k]);
        k = k + 1;
        assert(payload@ =~= model@.take(k as int));
    }
    assert(payload@ =~= bytes@.skip(pos as int));
    Ok((names, payload))
}

/// The code points of `s`.
fn codes_of_string(s: &String) -> (r: Vec<u32>)
    ensures
        r@ == codes_of(s@),
{
    let text = s.as_str();
    let n = text.unicode_len();
    let mut r: Vec<u32> = Vec::new();
    let mut i: usize = 0;
    while i < n
        invariant
            0 <= i <= n,
            n == text@.len(),
            text@ == s@,
            r@.len() == i,
            forall|k: int| 0 <= k < i ==> #[trigger] r@[k] == text@[k] as u32,
        decreases n - i,
    {
        let c = text.get_char(i);
        r.push(c as u32);
        i = i + 1;
    }
    assert(r@ =~= codes_of(s@));
    r
}

/// Frames `model` into an artifact that records the feature order `features`.
pub fn encode_artifact(features: &Vec<String>, model: &Vec<u8>) -> (r: Vec<u8>)
    ensures
        r@ == artifact_bytes(all_codes(crate::table::string_views(features@)), model@),
{
    let ghost ns = all_codes(crate::table::string_views(features@));
    let mut out: Vec<u8> = Vec::new();
    out.push(0x48u8);
    out.push(0x50u8);
    out.push(0x4du8);
    out.push(0x31u8);
    assert(out@ =~= magic());
    let count = u64_to_le_bytes(features.len() as u64);
    append_bytes(&mut out, &count);
    let ghost head = out@;
    let mut k: usize = 0;
    while k < features.len()
        invariant
            0 <= k <= features@.len(),
            ns == all_codes(crate::table::string_views(features@)),
            head == magic() + spec_u64_to_le_bytes(features@.len() as u64),
            out@ == head + encode_names(ns.take(k as int)),
        decreases features@.len() - k,
    {
        let codes = codes_of_string(&features[k]);
        assert(codes@ == ns[k as int]);
        let len_bytes = u64_to_le_bytes(codes.len() as u64);
        let ghost mark = out@;
        append_bytes(&mut out, &len_bytes);
        let ghost start = out@;
        let mut j: usize = 0;
        while j < codes.len()
            invariant
                0 <= j <= codes@.len(),
                out@ == start + encode_words(codes@.take(j as int)),
            decreases codes@.len() - j,
        {
            let w = u32_to_le_bytes(codes[j]);
            append_bytes(&mut out, &w);
            proof {
                let t = codes@.take(j as int);
                assert(word_chunks(codes@.take(j + 1)) =~= word_chunks(t).push(
                    spec_u32_to_le_bytes(codes@[j as int]),
                ));
                word_chunks(t).lemma_flatten_push(spec_u32_to_le_bytes(codes@[j as int]));
                assert(out@ =~= start + encode_words(codes@.take(j + 1)));
            }
            j = j + 1;
        }
        proof {
            assert(codes@.take(j as int) =~= codes@);
            let t = ns.take(k as int);
            assert(name_chunks(ns.take(k + 1)) =~= name_chunks(t).push(encode_name(ns[k as int])));
            name_chunks(t).lemma_flatten_push(encode_name(ns[k as int]));
            assert(out@ =~= head + encode_names(ns.take(k + 1)));
        }
        k = k + 1;
    }
    assert(ns.take(k as int) =~= ns);
    assert(ns.len() == features@.len());
    append_bytes(&mut out, model);
    out
}

/// The feature order that this library trains and serves, as code points.
pub open spec fn served_order() -> Seq<Seq<u32>> {
    all_codes(feature_names_spec())
}

/// Frames `model` into an artifact that records the served feature order.
pub fn frame_model(model: &Vec<u8>) -> (r: Vec<u8>)
    ensures
        r@ == artifact_bytes(served_order(), model@),
{
    encode_artifact(&feature_names(), model)
}

/// Whether two lists of code-point vectors are equal.
fn same_codes(a: &Vec<Vec<u32>>, b: &Vec<Vec<u32>>) -> (r: bool)
    ensures
        r == (nested_view(a@) == nested_view(b@)),
{
    if a.len() != b.len() {
        assert(nested_view(a@).len() != nested_view(b@).len());
        return false;
    }
    let mut k: usize = 0;
    while k < a.len()
        invariant
            0 <= k <= a@.len(),
            a@.len() == b@.len(),
            forall|i: int| 0 <= i < k ==> #[trigger] a@[i]@ == b@[i]@,
        decreases a@.len() - k,
    {
        let x = &a[k];
        let y = &b[k];
        if x.len() != y.len() {
            assert(nested_view(a@)[k as int] != nested_view(b@)[k as int]);
            return false;
        }
        let mut j: usize = 0;
        while j < x.len()
            invariant
                0 <= j <= x@.len(),
                x@.len() == y@.len(),
                k < a@.len(),
                a@.len() == b@.len(),
                *x == a@[k as int],
                *y == b@[k as int],
                forall|i: int| 0 <= i < j ==> #[trigger] x@[i] == y@[i],
            decreases x@.len() - j,
        {
            if x[j] != y[j] {
                assert(nested_view(a@)[k as int][j as int] != nested_view(b@)[k as int][j as int]);
                return false;
            }
            j = j + 1;
        }
        assert(x@ =~= y@);
        k = k + 1;
    }
    assert(nested_view(a@) =~= nested_view(b@));
    true
}

/// Opens an artifact for serving and gives its model payload.
///
/// Fails with `CorruptArtifact` when the bytes are not a well-framed
/// artifact, and with `FeatureOrderMismatch` when the artifact records a
/// feature order other than the served one.
pub fn open_artifact(bytes: &Vec<u8>) -> (r: Result<Vec<u8>, ArtifactError>)
    ensures
        match r {
            Ok(model) => parse_artifact(bytes@) == Some((served_order(), model@)),
            Err(ArtifactError::CorruptArtifact) => parse_artifact(bytes@) is None,
            Err(ArtifactError::FeatureOrderMismatch) => parse_artifact(bytes@) is Some
                && parse_artifact(bytes@).unwrap().0 != served_order(),
        },
{
    let (names, model) = decode_artifact(bytes)?;
    let features = feature_names();
    let mut expected: Vec<Vec<u32>> = Vec::new();
    let mut k: usize = 0;
    while k < features.len()
        invariant
            0 <= k <= features@.len(),
            crate::table::string_views(features@) == feature_names_spec(),
            expected@.len() == k,
            nested_view(expected@) == served_order().take(k as int),
        decreases features@.len() - k,
    {
        let codes = codes_of_string(&features[k]);
        let ghost before = expected@;
        expected.push(codes);
        assert(nested_view(expected@) =~= served_order().take(k + 1)) by {
            assert(nested_view(before) =~= served_order().take(k as int));
            assert(crate::table::string_views(features@).len() == features@.len());
            assert(served_order().len() == feature_names_spec().len());
            assert(features@[k as int]@ == feature_names_spec()[k as int]);
            assert(served_order()[k as int] == codes@);
        }
        k = k + 1;
    }
    assert(served_order().take(k as int) =~= served_order());
    if same_codes(&names, &expected) {
        Ok(model)
    } else {
        Err(ArtifactError::FeatureOrderMismatch)
    }
}

/// The served feature order fits the format.
pub proof fn lemma_served_order_fits()
    ensures
        lengths_fit(served_order()),
{
    crate::features::lemma_required_names_distinct();
    reveal_strlit("crim");
    reveal_strlit("zn");
    reveal_strlit("indus");
    reveal_strlit("chas");
    reveal_strlit("nox");
    reveal_strlit("rm");
    reveal_strlit("age");
    reveal_strlit("dis");
    reveal_strlit("rad");
    reveal_strlit("tax");
    reveal_strlit("ptratio");
    reveal_strlit("b");
    reveal_strlit("lstat");
    let s = served_order();
    assert forall|k: int| 0 <= k < s.len() implies #[trigger] s[k].len() <= u64::MAX by {
        assert(s[k].len() == feature_names_spec()[k].len());
    }
}

/// A model framed for serving opens again to the same payload: what the
/// training side publishes is what the serving side installs.
pub proof fn lemma_framed_model_opens(model: Seq<u8>)
    ensures
        parse_artifact(artifact_bytes(served_order(), model)) == Some((served_order(), model)),
{
    lemma_served_order_fits();
    lemma_artifact_round_trip(served_order(), model);
}

} // verus!
