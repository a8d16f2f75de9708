use cs2_addons::{required_permissions, GAME_CODE, PLUGIN_ID, PLUGIN_VERSION};

/// The panel normalizes plugin ids: one that does not decode as unpadded
/// base32 and re-encode to itself is replaced by an FNV hash.
#[test]
fn plugin_id_survives_panel_normalization() {
    const ALPHABET: &[u8] = b"abcdefghijklmnopqrstuvwxyz234567";
    let id = PLUGIN_ID;
    assert!(id.bytes().all(|b| ALPHABET.contains(&b)), "PLUGIN_ID must be lowercase base32");
    assert!(
        matches!(id.len(), 2 | 4 | 5 | 7 | 8 | 10 | 12 | 13),
        "PLUGIN_ID length {} is not a valid unpadded base32 length",
        id.len()
    );

    // Decode to bits, then re-encode, and require the same string back.
    let mut bits = String::new();
    for byte in id.bytes() {
        let index = ALPHABET.iter().position(|candidate| *candidate == byte).expect("checked above");
        bits.push_str(&format!("{index:05b}"));
    }
    let whole_bytes = bits.len() / 8;
    assert!(
        bits[whole_bytes * 8..].bytes().all(|bit| bit == b'0'),
        "PLUGIN_ID has non-zero padding bits and will not re-encode to itself"
    );
    let mut reencoded = String::new();
    let payload = &bits[..whole_bytes * 8];
    let mut index = 0;
    while index < payload.len() {
        let end = (index + 5).min(payload.len());
        let mut chunk = payload[index..end].to_string();
        while chunk.len() < 5 {
            chunk.push('0');
        }
        let value = usize::from_str_radix(&chunk, 2).expect("binary digits");
        reencoded.push(ALPHABET[value] as char);
        index += 5;
    }
    assert_eq!(reencoded, id, "PLUGIN_ID does not round-trip through base32");
}

#[test]
fn plugin_constants() {
    assert_eq!(GAME_CODE, "cs2");
    assert_eq!(PLUGIN_VERSION, "0.6.4");
    assert_eq!(required_permissions(), vec!["node_commands", "files", "manage_servers"]);
}
