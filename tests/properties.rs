use ice_crypt::{IceError, IceKey};

const KEY: [u8; 16] = [67, 83, 71, 79, 16, 54, 0, 0, 132, 13, 0, 0, 97, 3, 0, 0];

fn keyed(level: usize, key: &[u8]) -> IceKey {
    let mut ice = IceKey::new(level);
    ice.set(key.to_vec()).unwrap();
    ice
}

#[test]
fn round_trip_on_several_blocks() {
    let ice = keyed(2, &KEY);
    let blocks: [[u8; 8]; 4] = [
        [0; 8],
        [255; 8],
        [1, 2, 3, 4, 5, 6, 7, 8],
        [249, 199, 187, 183, 247, 131, 106, 190],
    ];
    for b in blocks.iter() {
        let c = ice.encrypt(b.to_vec()).unwrap();
        assert_ne!(c, b.to_vec());
        assert_eq!(ice.decrypt(c).unwrap(), b.to_vec());
    }
}

#[test]
fn round_trip_thin_and_level_one() {
    let thin = keyed(0, &KEY);
    let one = keyed(1, &KEY[..8]);
    let b: Vec<u8> = vec![10, 20, 30, 40, 50, 60, 70, 80];
    let c_thin = thin.encrypt(b.clone()).unwrap();
    let c_one = one.encrypt(b.clone()).unwrap();
    assert_ne!(c_thin, c_one);
    assert_eq!(thin.decrypt(c_thin).unwrap(), b);
    assert_eq!(one.decrypt(c_one).unwrap(), b);
}

#[test]
fn round_trip_unkeyed() {
    let ice = IceKey::new(0);
    let b: Vec<u8> = vec![9, 8, 7, 6, 5, 4, 3, 2];
    let c = ice.encrypt(b.clone()).unwrap();
    assert_eq!(ice.decrypt(c).unwrap(), b);
}

#[test]
fn determinism_across_calls_and_instances() {
    let a = keyed(2, &KEY);
    let b = keyed(2, &KEY);
    let p: Vec<u8> = vec![249, 199, 187, 183, 247, 131, 106, 190];
    let first = a.encrypt(p.clone()).unwrap();
    assert_eq!(a.encrypt(p.clone()).unwrap(), first);
    assert_eq!(b.encrypt(p.clone()).unwrap(), first);
    assert_eq!(a.encrypt_all(p.clone()), b.encrypt_all(p));
}

#[test]
fn mode_sizing_and_key_lengths() {
    let mut thin = IceKey::new(0);
    assert_eq!(thin.rounds(), 8);
    assert_eq!(thin.size(), 1);
    assert_eq!(thin.set(vec![0; 8]), Err(IceError::InvalidKeyLength));
    assert_eq!(thin.set(vec![0; 16]), Ok(()));

    let mut two = IceKey::new(2);
    assert_eq!(two.rounds(), 32);
    assert_eq!(two.set(vec![0; 15]), Err(IceError::InvalidKeyLength));
    assert_eq!(two.set(vec![0; 17]), Err(IceError::InvalidKeyLength));
    assert_eq!(two.set(KEY.to_vec()), Ok(()));

    let mut three = IceKey::new(3);
    assert_eq!(three.rounds(), 48);
    assert_eq!(three.size(), 3);
    assert_eq!(three.set(vec![0; 16]), Err(IceError::InvalidKeyLength));
    assert_eq!(three.set(vec![0; 24]), Ok(()));
}

#[test]
fn rejected_key_keeps_schedule() {
    let mut ice = keyed(2, &KEY);
    let p: Vec<u8> = vec![249, 199, 187, 183, 247, 131, 106, 190];
    assert_eq!(ice.set(vec![1; 3]), Err(IceError::InvalidKeyLength));
    assert_eq!(ice.encrypt(p).unwrap(), vec![19, 216, 51, 57, 205, 99, 155, 24]);
}

#[test]
fn rekeying_replaces_schedule() {
    let mut ice = IceKey::new(2);
    ice.set(vec![5; 16]).unwrap();
    ice.set(KEY.to_vec()).unwrap();
    let p: Vec<u8> = vec![249, 199, 187, 183, 247, 131, 106, 190];
    assert_eq!(ice.encrypt(p).unwrap(), vec![19, 216, 51, 57, 205, 99, 155, 24]);
}

#[test]
fn block_length_errors() {
    let ice = keyed(2, &KEY);
    assert_eq!(ice.encrypt(vec![1; 7]), Err(IceError::InvalidBlockLength));
    assert_eq!(ice.encrypt(vec![1; 9]), Err(IceError::InvalidBlockLength));
    assert_eq!(ice.encrypt(Vec::new()), Err(IceError::InvalidBlockLength));
    assert_eq!(ice.decrypt(vec![1; 7]), Err(IceError::InvalidBlockLength));
    assert_eq!(ice.decrypt(vec![1; 16]), Err(IceError::InvalidBlockLength));
}

#[test]
fn bulk_pads_exact_multiple_with_whole_block() {
    let ice = keyed(2, &KEY);
    let p: Vec<u8> = vec![249, 199, 187, 183, 247, 131, 106, 190];
    let c = ice.encrypt_all(p.clone());
    assert_eq!(c.len(), 16);
    assert_eq!(c[..8].to_vec(), vec![19, 216, 51, 57, 205, 99, 155, 24]);
    assert_eq!(c[8..].to_vec(), ice.encrypt(vec![0; 8]).unwrap());
}

#[test]
fn bulk_of_empty_input_is_one_block() {
    let ice = keyed(2, &KEY);
    let c = ice.encrypt_all(Vec::new());
    assert_eq!(c, ice.encrypt(vec![0; 8]).unwrap());
    assert_eq!(ice.decrypt_all(Vec::new()), ice.decrypt(vec![0; 8]).unwrap());
}

#[test]
fn bulk_round_trip_recovers_padded_input() {
    let ice = keyed(2, &KEY);
    let p: Vec<u8> = vec![249, 199, 187, 183, 247, 131, 106, 190, 97, 204, 24, 123, 245, 67, 242, 95, 160, 80, 87, 100, 165, 240, 74, 138, 41];
    let c = ice.encrypt_all(p.clone());
    assert_eq!(c.len(), 32);
    let back = ice.decrypt_all(c);
    assert_eq!(back.len(), 40);
    assert_eq!(back[..25].to_vec(), p);
    assert_eq!(back[25..32].to_vec(), vec![0; 7]);
}
