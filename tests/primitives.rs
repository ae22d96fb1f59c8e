use ice_crypt::galois::{gf_exp7, gf_mult};
use ice_crypt::permute::ice_perm32;
use ice_crypt::sbox::init_sbox;

#[test]
fn gf_mult_small_products() {
    assert_eq!(gf_mult(2, 3, 0x11b), 6);
    assert_eq!(gf_mult(0x80, 2, 0x11b), 0x1b);
    assert_eq!(gf_mult(0x57, 0x83, 0x11b), 0xc1);
    assert_eq!(gf_mult(0, 0xff, 333), 0);
}

#[test]
fn gf_exp7_fixed_points_and_value() {
    assert_eq!(gf_exp7(0, 333), 0);
    assert_eq!(gf_exp7(1, 333), 1);
    let x2 = gf_mult(2, 2, 0x11b);
    let x3 = gf_mult(2, x2, 0x11b);
    let x6 = gf_mult(x3, x3, 0x11b);
    assert_eq!(gf_exp7(2, 0x11b), gf_mult(2, x6, 0x11b) as u64);
    assert_eq!(gf_exp7(2, 0x11b), 0x80);
}

#[test]
fn perm32_moves_single_bits() {
    assert_eq!(ice_perm32(0), 0);
    assert_eq!(ice_perm32(1), 0x00000001);
    assert_eq!(ice_perm32(2), 0x00000080);
    assert_eq!(ice_perm32(0x100), 0x00000008);
    assert_eq!(ice_perm32(0x8000_0000), 0x8000_0000);
    assert_eq!(ice_perm32(3), 0x81);
    assert_eq!(ice_perm32(0xFFFF_FFFF), 0xFFFF_FFFF);
}

#[test]
fn sbox_entries_are_placed_words() {
    let t = init_sbox();
    assert_eq!(t.len(), 1024);
    for row in t.iter() {
        for c in 0..4 {
            assert!(row[c] <= 0xFFFF_FFFF);
        }
    }
    assert_eq!(t[0][0], ice_perm32(gf_exp7(0x83, 333) << 24));
    assert_eq!(t[0][3], ice_perm32(gf_exp7(0xea, 397)));
    // row 1023: column 0xff, constant set 3
    assert_eq!(t[1023][1], ice_perm32(gf_exp7(0xff ^ 0x41, 391) << 16));
}
