use vdom_arena::assets::compressed_extension;

#[test]
fn plain_extensions_gain_a_br_suffix() {
    let ext = b"css".to_vec();
    assert_eq!(compressed_extension(Some(&ext)), Some(b"css.br".to_vec()));
}

#[test]
fn missing_extensions_become_br() {
    assert_eq!(compressed_extension(None), Some(b"br".to_vec()));
}

#[test]
fn br_files_are_not_compressed_again() {
    let ext = b"br".to_vec();
    assert_eq!(compressed_extension(Some(&ext)), None);
    let upper = b"BR".to_vec();
    assert_eq!(compressed_extension(Some(&upper)), None);
    let tar = b"tar.br".to_vec();
    assert_eq!(compressed_extension(Some(&tar)), None);
}

#[test]
fn short_extensions_still_get_a_suffix() {
    let ext = b"b".to_vec();
    assert_eq!(compressed_extension(Some(&ext)), Some(b"b.br".to_vec()));
}

#[test]
fn nested_extensions_keep_their_stem() {
    let ext = b"tar.gz".to_vec();
    assert_eq!(compressed_extension(Some(&ext)), Some(b"tar.gz.br".to_vec()));
}
