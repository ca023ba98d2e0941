use fractal_rs::color::sextant_channels;

#[test]
fn sextants_arrange_chroma_secondary_and_zero() {
    let (c, x, z) = ('c', 'x', '0');
    assert_eq!(sextant_channels(0, c, x, z), ('c', 'x', '0'));
    assert_eq!(sextant_channels(59, c, x, z), ('c', 'x', '0'));
    assert_eq!(sextant_channels(60, c, x, z), ('x', 'c', '0'));
    assert_eq!(sextant_channels(120, c, x, z), ('0', 'c', 'x'));
    assert_eq!(sextant_channels(180, c, x, z), ('0', 'x', 'c'));
    assert_eq!(sextant_channels(240, c, x, z), ('x', '0', 'c'));
    assert_eq!(sextant_channels(300, c, x, z), ('c', '0', 'x'));
    assert_eq!(sextant_channels(359, c, x, z), ('c', '0', 'x'));
}

#[test]
fn sextant_edges_follow_truncating_division() {
    let (c, x, z) = (1u8, 2u8, 0u8);
    // truncation toward zero puts -59 in the first sextant
    assert_eq!(sextant_channels(-59, c, x, z), (1, 2, 0));
    assert_eq!(sextant_channels(-60, c, x, z), (1, 0, 2));
    assert_eq!(sextant_channels(360, c, x, z), (1, 0, 2));
    assert_eq!(sextant_channels(1000, c, x, z), (1, 0, 2));
}

#[test]
fn sextants_of_primary_hues() {
    // full chroma and a zero secondary component at the primaries
    assert_eq!(sextant_channels(0, 255u8, 0, 0), (255, 0, 0));
    assert_eq!(sextant_channels(120, 255u8, 0, 0), (0, 255, 0));
    assert_eq!(sextant_channels(240, 255u8, 0, 0), (0, 0, 255));
    // at sixty degrees the secondary component equals the chroma
    assert_eq!(sextant_channels(60, 255u8, 255, 0), (255, 255, 0));
}
