use house_price_predictor::artifact::{
    decode_artifact, encode_artifact, frame_model, open_artifact, ArtifactError,
};
use house_price_predictor::features::feature_names;

fn codes(s: &str) -> Vec<u32> {
    s.chars().map(|c| c as u32).collect()
}

#[test]
fn a_framed_model_opens_to_the_same_payload() {
    let model = vec![1u8, 2, 3, 250, 0, 7];
    let bytes = frame_model(&model);
    assert_eq!(open_artifact(&bytes), Ok(model));
}

#[test]
fn an_empty_payload_round_trips() {
    let bytes = frame_model(&vec![]);
    assert_eq!(open_artifact(&bytes), Ok(vec![]));
}

#[test]
fn the_frame_is_laid_out_little_endian() {
    let bytes = encode_artifact(&vec!["ab".to_string()], &vec![9u8]);
    let mut expected = b"HPM1".to_vec();
    expected.extend_from_slice(&1u64.to_le_bytes());
    expected.extend_from_slice(&2u64.to_le_bytes());
    expected.extend_from_slice(&('a' as u32).to_le_bytes());
    expected.extend_from_slice(&('b' as u32).to_le_bytes());
    expected.push(9);
    assert_eq!(bytes, expected);
}

#[test]
fn decoding_gives_back_names_and_payload() {
    let names = vec!["crim".to_string(), "ünï".to_string(), String::new()];
    let bytes = encode_artifact(&names, &vec![5u8, 6]);
    let (ns, model) = decode_artifact(&bytes).unwrap();
    assert_eq!(ns, vec![codes("crim"), codes("ünï"), vec![]]);
    assert_eq!(model, vec![5u8, 6]);
}

#[test]
fn a_bad_magic_is_corrupt() {
    let mut bytes = frame_model(&vec![1u8]);
    bytes[0] = b'X';
    assert_eq!(open_artifact(&bytes), Err(ArtifactError::CorruptArtifact));
}

#[test]
fn a_truncated_artifact_is_corrupt() {
    let bytes = frame_model(&vec![1u8]);
    let header_only = bytes[..30].to_vec();
    assert_eq!(open_artifact(&header_only), Err(ArtifactError::CorruptArtifact));
    assert_eq!(open_artifact(&vec![]), Err(ArtifactError::CorruptArtifact));
}

#[test]
fn a_huge_name_length_is_corrupt() {
    let mut bytes = b"HPM1".to_vec();
    bytes.extend_from_slice(&1u64.to_le_bytes());
    bytes.extend_from_slice(&u64::MAX.to_le_bytes());
    assert_eq!(decode_artifact(&bytes), Err(ArtifactError::CorruptArtifact));
}

#[test]
fn another_feature_order_is_a_mismatch() {
    let mut names = feature_names();
    names.swap(0, 1);
    let bytes = encode_artifact(&names, &vec![1u8]);
    assert_eq!(open_artifact(&bytes), Err(ArtifactError::FeatureOrderMismatch));
    let fewer = encode_artifact(&feature_names()[..12].to_vec(), &vec![1u8]);
    assert_eq!(open_artifact(&fewer), Err(ArtifactError::FeatureOrderMismatch));
}
