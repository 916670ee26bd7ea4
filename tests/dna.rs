use substrate_kitties::dna::{breed_dna, combine_dna, random_value, BlockContext, Kitty};

#[test]
fn combine_dna_takes_selected_bits_from_first_parent() {
    assert_eq!(combine_dna(0b1111_0000, 0b0000_1111, 0b1010_1010), 0b1010_0101);
    assert_eq!(combine_dna(0xAB, 0xCD, 0xFF), 0xAB);
    assert_eq!(combine_dna(0xAB, 0xCD, 0x00), 0xCD);
    assert_eq!(combine_dna(0x12, 0x34, 0x0F), 0x32);
}

#[test]
fn breed_dna_mixes_each_gene() {
    let mut d1 = [0u8; 16];
    let mut d2 = [0u8; 16];
    let mut sel = [0u8; 16];
    for i in 0..16 {
        d1[i] = i as u8;
        d2[i] = 0xF0 | i as u8;
        sel[i] = if i % 2 == 0 { 0xFF } else { 0x00 };
    }
    let child = breed_dna(&d1, &d2, &sel);
    for i in 0..16 {
        let expected = if i % 2 == 0 { d1[i] } else { d2[i] };
        assert_eq!(child[i], expected);
    }
}

#[test]
fn kitty_encodes_its_genes() {
    let dna = [7u8; 16];
    assert_eq!(Kitty(dna).encode(), dna.to_vec());
}

#[test]
fn kitty_decodes_from_front_of_bytes() {
    let mut bytes: Vec<u8> = (0u8..20).collect();
    let k = Kitty::decode(&bytes).unwrap();
    let expected: Vec<u8> = (0u8..16).collect();
    assert_eq!(k.0.to_vec(), expected);
    bytes.truncate(15);
    assert!(Kitty::decode(&bytes).is_none());
    assert!(Kitty::decode(&[]).is_none());
}

#[test]
fn random_value_hashes_scale_encoded_payload() {
    let ctx = BlockContext { random_seed: [9u8; 32], extrinsic_index: Some(2), block_number: 5 };
    let sender: u64 = 0x0102_0304_0506_0708;
    let mut payload: Vec<u8> = vec![9u8; 32];
    payload.extend_from_slice(&sender.to_le_bytes());
    payload.push(1);
    payload.extend_from_slice(&2u32.to_le_bytes());
    payload.extend_from_slice(&5u64.to_le_bytes());
    let r = random_value(&ctx, sender);
    assert_eq!(r, sp_crypto_hashing::blake2_128(&payload));
    assert_ne!(r.to_vec(), payload[..16].to_vec());
}

#[test]
fn random_value_without_extrinsic_index() {
    let ctx = BlockContext { random_seed: [0u8; 32], extrinsic_index: None, block_number: 0 };
    let mut payload: Vec<u8> = vec![0u8; 32];
    payload.extend_from_slice(&3u64.to_le_bytes());
    payload.push(0);
    payload.extend_from_slice(&0u64.to_le_bytes());
    assert_eq!(random_value(&ctx, 3), sp_crypto_hashing::blake2_128(&payload));
    assert_ne!(random_value(&ctx, 3), random_value(&ctx, 4));
}
