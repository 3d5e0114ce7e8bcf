use base64::Engine as _;
use fspy::windows_shm::{decode_id, encode_id, hyphenated_text, mapping_name_suffix, DecodedId, InvalidId};

const MAPPING_NAME_PREFIX: &str = r"Local\vite-task-fspy-";
const ID_PREFIX: &str = "fspy-win32-v1";

fn utf16(text: &str) -> Vec<u16> {
    text.encode_utf16().collect()
}

fn le_bytes(units: &[u16]) -> Vec<u8> {
    units.iter().flat_map(|unit| unit.to_le_bytes()).collect()
}

fn b64(bytes: &[u8]) -> String {
    base64::engine::general_purpose::URL_SAFE_NO_PAD.encode(bytes)
}

#[test]
fn identifiers_round_trip_nontrivial_utf16_paths() {
    let mapping_name = format!("{MAPPING_NAME_PREFIX}{}", uuid::Uuid::new_v4());
    let suffix = std::str::from_utf8(mapping_name_suffix(mapping_name.as_bytes()).unwrap()).unwrap().to_owned();
    let mut path_units = utf16(r"C:\vite-task-fspy-");
    path_units.extend([0x00e9, 0x6c34, 0xd83d, 0xde80, 0xd800, u16::from(b'\\')]);
    path_units.extend(utf16(&format!("{suffix}.shm")));

    let id = encode_id(&path_units, mapping_name.as_bytes()).unwrap();
    let decoded = decode_id(&id).unwrap();

    assert_eq!(decoded.mapping_name, mapping_name.into_bytes());
    assert_eq!(decoded.backing_path, path_units);
}

#[test]
fn identifiers_have_the_documented_form() {
    let name = format!("{MAPPING_NAME_PREFIX}0123abcd-4567-89ef-0123-456789abcdef");
    let path = utf16(r"C:\t\0123abcd-4567-89ef-0123-456789abcdef.shm");
    let id = encode_id(&path, name.as_bytes()).unwrap();
    let expected = format!("{ID_PREFIX}.{}.{}", b64(&le_bytes(&path)), b64(name.as_bytes()));
    assert_eq!(String::from_utf8(id.clone()).unwrap(), expected);
    assert_eq!(decode_id(&id), Ok(DecodedId { backing_path: path, mapping_name: name.into_bytes() }));
}

#[test]
fn only_canonical_uuids_name_mappings() {
    let canonical = "0123abcd-4567-89ef-0123-456789abcdef";
    let name = format!("{MAPPING_NAME_PREFIX}{canonical}");
    assert_eq!(mapping_name_suffix(name.as_bytes()), Ok(canonical.as_bytes()));
    for other in [
        "0123ABCD-4567-89EF-0123-456789ABCDEF",
        "0123abcd456789ef0123456789abcdef",
        "{0123abcd-4567-89ef-0123-456789abcdef}",
        "urn:uuid:0123abcd-4567-89ef-0123-456789abcdef",
        "not-a-uuid",
        "",
    ] {
        let name = format!("{MAPPING_NAME_PREFIX}{other}");
        assert_eq!(mapping_name_suffix(name.as_bytes()), Err(InvalidId), "{other}");
    }
    assert_eq!(mapping_name_suffix(format!(r"Global\vite-task-fspy-{canonical}").as_bytes()), Err(InvalidId));
    assert_eq!(encode_id(&utf16(r"C:\x.shm"), b"Local\\vite-task-fspy-x"), Err(InvalidId));
}

#[test]
fn uuid_text_is_lowercase_and_hyphenated() {
    let bytes = [0x01, 0x23, 0xab, 0xcd, 0x45, 0x67, 0x89, 0xef, 0x01, 0x23, 0x45, 0x67, 0x89, 0xab, 0xcd, 0xef];
    assert_eq!(hyphenated_text(&bytes), b"0123abcd-4567-89ef-0123-456789abcdef".to_vec());
    let uuid = uuid::Uuid::new_v4();
    assert_eq!(hyphenated_text(uuid.as_bytes()), uuid.hyphenated().to_string().into_bytes());
}

#[test]
fn malformed_identifiers_are_refused() {
    let name = format!("{MAPPING_NAME_PREFIX}0123abcd-4567-89ef-0123-456789abcdef");
    let path = utf16(r"C:\t\0123abcd-4567-89ef-0123-456789abcdef.shm");
    let encoded_path = b64(&le_bytes(&path));
    let encoded_name = b64(name.as_bytes());
    let id = format!("{ID_PREFIX}.{encoded_path}.{encoded_name}");
    assert!(decode_id(id.as_bytes()).is_ok());

    let malformed = [
        String::new(),
        name.clone(),
        ID_PREFIX.to_owned(),
        format!("{ID_PREFIX}..{encoded_name}"),
        format!("{ID_PREFIX}.AA.{encoded_name}"),
        format!("{ID_PREFIX}.{encoded_path}.%"),
        format!("{ID_PREFIX}.{encoded_path}.{}", b64(&[0xff])),
        format!("{ID_PREFIX}.{encoded_path}.{}", b64(br"Local\vite-task-fspy-not-a-uuid")),
        format!("{ID_PREFIX}.{encoded_path}=.{encoded_name}"),
        format!("{id}.{encoded_name}.extra"),
        format!("fspy-win32-v2.{encoded_path}.{encoded_name}"),
        // An odd number of path bytes is no UTF-16.
        format!("{ID_PREFIX}.{}.{encoded_name}", b64(b"abc")),
    ];
    for id in malformed {
        assert_eq!(decode_id(id.as_bytes()), Err(InvalidId), "{id}");
    }
}
