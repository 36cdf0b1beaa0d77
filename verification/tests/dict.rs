use lightr_cri::stream::dict::{spdy_dictionary, SPDY_DICTIONARY};

#[test]
fn dictionary_length_is_spec_1423() {
    assert_eq!(SPDY_DICTIONARY.len(), 1423);
    assert_eq!(spdy_dictionary().len(), 1423);
}

#[test]
fn dictionary_ends_with_enq_0_dot() {
    let bytes = spdy_dictionary();
    assert_eq!(&bytes[bytes.len() - 6..], b"enq=0.");
}

#[test]
fn dictionary_starts_with_options_entry() {
    let bytes = spdy_dictionary();
    assert_eq!(&bytes[0..4], &[0, 0, 0, 7]);
    assert_eq!(&bytes[4..11], b"options");
}
