use wad_sprites::error::WadError;

#[test]
fn every_fault_has_a_message() {
    let all = [
        WadError::BadMagic,
        WadError::OutOfRange,
        WadError::Truncated,
        WadError::NonTextName,
        WadError::MissingPalette,
        WadError::Encode,
        WadError::TransparencyAssumptionViolated,
        WadError::TooLarge,
    ];
    for (i, a) in all.iter().enumerate() {
        assert!(!a.message().is_empty());
        for (j, b) in all.iter().enumerate() {
            assert_eq!(a == b, i == j);
            assert_eq!(a.message() == b.message(), i == j);
        }
    }
}

#[test]
fn messages_name_the_fault() {
    assert_eq!(WadError::BadMagic.message(), "the archive begins with neither IWAD nor PWAD");
    assert_eq!(WadError::MissingPalette.message(), "the archive has no lump named PLAYPAL");
    assert_eq!(
        WadError::TransparencyAssumptionViolated.message(),
        "the transparent palette index is used by a picture"
    );
}
