use sha2::{Digest, Sha256};
use warp_route_ids::derivation::{get_token_id, get_warp_route_id, Address, Hash32};
use warp_route_ids::hex_string::HexString;

fn addr(bytes: [u8; 20]) -> Address {
    HexString::<20>::from_raw_bytes(bytes.to_vec()).unwrap()
}

fn reference_warp_route_id(token: &[u8; 20], deployer: &[u8; 20]) -> Vec<u8> {
    let mut hasher = Sha256::new();
    let mut padded = [0u8; 32];
    padded[12..].copy_from_slice(token);
    hasher.update(padded);
    hasher.update([0u8]);
    hasher.update(deployer);
    hasher.finalize().to_vec()
}

fn reference_token_id(warp_route_id: &Hash32, decimals: u8) -> Vec<u8> {
    let mut hasher = Sha256::new();
    hasher.update(warp_route_id.render_to_binary());
    hasher.update(format!("Synthetic token for {}", warp_route_id.render_to_text()).as_bytes());
    hasher.update([decimals]);
    hasher.finalize().to_vec()
}

#[test]
fn warp_route_id_is_deterministic() {
    let token = addr([0xaa; 20]);
    let deployer = addr([0x55; 20]);
    let first = get_warp_route_id(&token, &deployer);
    let second = get_warp_route_id(&token, &deployer);
    assert_eq!(first.render_to_binary(), second.render_to_binary());
    assert!(first == second);
}

#[test]
fn warp_route_id_all_zero_inputs_match_reference_digest() {
    // The preimage is 53 zero bytes: 32 (padded address) + 1 (separator) + 20.
    let id = get_warp_route_id(&addr([0u8; 20]), &addr([0u8; 20]));
    let expected = Sha256::digest([0u8; 53]).to_vec();
    assert_eq!(id.render_to_binary(), expected);
    assert_eq!(expected, reference_warp_route_id(&[0u8; 20], &[0u8; 20]));
}

#[test]
fn warp_route_id_matches_reference_layout() {
    let token_bytes = {
        let mut b = [0u8; 20];
        for (i, x) in b.iter_mut().enumerate() {
            *x = (i as u8).wrapping_mul(31).wrapping_add(3);
        }
        b
    };
    let deployer_bytes = [0x10u8; 20];
    let id = get_warp_route_id(&addr(token_bytes), &addr(deployer_bytes));
    assert_eq!(
        id.render_to_binary(),
        reference_warp_route_id(&token_bytes, &deployer_bytes)
    );
}

#[test]
fn warp_route_id_is_bit_sensitive() {
    let token = [0x42u8; 20];
    let deployer = [0x24u8; 20];
    let base = get_warp_route_id(&addr(token), &addr(deployer)).render_to_binary();
    let mut token_flipped = token;
    token_flipped[19] ^= 0x01;
    let changed = get_warp_route_id(&addr(token_flipped), &addr(deployer)).render_to_binary();
    assert_ne!(base, changed);
    let mut deployer_flipped = deployer;
    deployer_flipped[0] ^= 0x80;
    let changed = get_warp_route_id(&addr(token), &addr(deployer_flipped)).render_to_binary();
    assert_ne!(base, changed);
}

#[test]
fn token_id_matches_reference_layout() {
    let warp_route_id = get_warp_route_id(&addr([1u8; 20]), &addr([2u8; 20]));
    let token_id = get_token_id(&warp_route_id, 18);
    assert_eq!(
        token_id.render_to_binary(),
        reference_token_id(&warp_route_id, 18)
    );
}

#[test]
fn token_id_boundary_decimals_differ() {
    let warp_route_id = get_warp_route_id(&addr([7u8; 20]), &addr([9u8; 20]));
    let low = get_token_id(&warp_route_id, 0);
    let high = get_token_id(&warp_route_id, 255);
    assert!(low != high);
    // Each is deterministic.
    assert!(low == get_token_id(&warp_route_id, 0));
    assert!(high == get_token_id(&warp_route_id, 255));
    assert_eq!(low.render_to_binary(), reference_token_id(&warp_route_id, 0));
    assert_eq!(
        high.render_to_binary(),
        reference_token_id(&warp_route_id, 255)
    );
}
