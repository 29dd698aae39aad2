use ralph_island::auth::{
    authorize_claims, check_clerk_session, decode_jwt_payload, AuthError,
};
use ralph_island::client::{terrain_parity_delta, tint_channel, FacingDirection};
use ralph_island::keys::{compare_keys, KeyOrder};
use ralph_island::movement::{movement_axes, InputState};
use ralph_island::room::{
    chunk_coord_for_grid, default_character_name_for_player, is_valid_protocol_identifier,
    is_valid_structure_kind, parse_room_code_from_path, sanitize_character_id,
    sanitize_character_name, sanitize_player_id, sanitize_room_code,
};
use ralph_island::text::{split_str, trim_str};

#[test]
fn room_codes_are_trimmed_and_upper_cased() {
    assert_eq!(sanitize_room_code("  abc-12_x "), Some("ABC-12_X".to_string()));
    assert_eq!(sanitize_room_code(""), None);
    assert_eq!(sanitize_room_code("   "), None);
    assert_eq!(sanitize_room_code("bad code"), None);
    assert_eq!(sanitize_room_code("é"), None);
    assert_eq!(sanitize_room_code(&"a".repeat(24)), Some("A".repeat(24)));
    assert_eq!(sanitize_room_code(&"a".repeat(25)), None);
}

#[test]
fn sanitized_room_code_is_stable() {
    let once = sanitize_room_code(" room-7 ").unwrap();
    assert_eq!(sanitize_room_code(&once), Some(once.clone()));
}

#[test]
fn player_ids_need_three_to_120_room_characters() {
    assert_eq!(sanitize_player_id(" user_abc "), Some("user_abc".to_string()));
    assert_eq!(sanitize_player_id("ab"), None);
    assert_eq!(sanitize_player_id("abc"), Some("abc".to_string()));
    assert_eq!(sanitize_player_id(&"x".repeat(120)), Some("x".repeat(120)));
    assert_eq!(sanitize_player_id(&"x".repeat(121)), None);
    assert_eq!(sanitize_player_id("no:colons"), None);
}

#[test]
fn protocol_identifiers_allow_colons() {
    assert!(is_valid_protocol_identifier("node:iron-1"));
    assert!(is_valid_protocol_identifier(" padded "));
    assert!(!is_valid_protocol_identifier(""));
    assert!(!is_valid_protocol_identifier("with space"));
    assert!(is_valid_protocol_identifier(&"a".repeat(64)));
    assert!(!is_valid_protocol_identifier(&"a".repeat(65)));
}

#[test]
fn character_names_are_trimmed_and_bounded() {
    assert_eq!(sanitize_character_name("  Ada  "), Some("Ada".to_string()));
    assert_eq!(sanitize_character_name("   "), None);
    assert_eq!(sanitize_character_name("bad\u{7}name"), None);
    assert_eq!(sanitize_character_name(&"n".repeat(32)), Some("n".repeat(32)));
    assert_eq!(sanitize_character_name(&"n".repeat(33)), None);
    // 11 characters of 3 bytes each exceed 32 bytes.
    assert_eq!(sanitize_character_name(&"€".repeat(11)), None);
    assert_eq!(sanitize_character_name("inner space"), Some("inner space".to_string()));
}

#[test]
fn character_ids_are_trimmed_identifiers() {
    assert_eq!(sanitize_character_id(" hero-1 "), Some("hero-1".to_string()));
    assert_eq!(sanitize_character_id("hero 1"), None);
    assert_eq!(sanitize_character_id(""), None);
}

#[test]
fn default_character_names() {
    assert_eq!(default_character_name_for_player("  user_1 "), "user_1");
    assert_eq!(default_character_name_for_player("   "), "Player");
    assert_eq!(default_character_name_for_player("\u{1}\u{2}"), "Player");
    assert_eq!(default_character_name_for_player("a\u{1}b"), "ab");
    assert_eq!(default_character_name_for_player(&"p".repeat(40)), "p".repeat(32));
}

#[test]
fn room_code_from_websocket_path() {
    assert_eq!(parse_room_code_from_path("/api/rooms/abc/ws"), Some("ABC".to_string()));
    assert_eq!(parse_room_code_from_path("/api/rooms/abc/ws/"), None);
    assert_eq!(parse_room_code_from_path("/api/room/abc/ws"), None);
    assert_eq!(parse_room_code_from_path("/api/rooms/a b/ws"), None);
    assert_eq!(parse_room_code_from_path("api/rooms/abc/ws"), None);
}

#[test]
fn structure_kinds() {
    assert!(is_valid_structure_kind("beacon"));
    assert!(is_valid_structure_kind("miner"));
    assert!(is_valid_structure_kind("assembler"));
    assert!(!is_valid_structure_kind("Beacon"));
    assert!(!is_valid_structure_kind("wall"));
}

#[test]
fn chunk_coordinates_floor_toward_negative() {
    assert_eq!(chunk_coord_for_grid(0), 0);
    assert_eq!(chunk_coord_for_grid(31), 0);
    assert_eq!(chunk_coord_for_grid(32), 1);
    assert_eq!(chunk_coord_for_grid(-1), -1);
    assert_eq!(chunk_coord_for_grid(-32), -1);
    assert_eq!(chunk_coord_for_grid(-33), -2);
    assert_eq!(chunk_coord_for_grid(i64::MIN), i64::MIN / 32);
}

#[test]
fn text_helpers() {
    assert_eq!(trim_str("\t a b \n"), "a b");
    assert_eq!(trim_str("\u{3000}x\u{a0}"), "x");
    assert_eq!(split_str("a..b", '.'), vec!["a".to_string(), String::new(), "b".to_string()]);
    assert_eq!(split_str("", '.'), vec![String::new()]);
    assert_eq!(compare_keys("a", "b"), KeyOrder::Less);
    assert_eq!(compare_keys("b", "a"), KeyOrder::Greater);
    assert_eq!(compare_keys("ab", "ab"), KeyOrder::Equal);
    assert_eq!(compare_keys("a", "ab"), KeyOrder::Less);
}

#[test]
fn jwt_payload_is_decoded_from_the_middle_segment() {
    assert_eq!(decode_jwt_payload("h.eyJzdWIiOiJ4In0.s"), Ok(b"{\"sub\":\"x\"}".to_vec()));
    assert_eq!(decode_jwt_payload("h.eyJzdWIiOiJ4In0"), Err(AuthError::InvalidTokenFormat));
    assert_eq!(decode_jwt_payload("a.b.c.d"), Err(AuthError::InvalidTokenFormat));
    assert_eq!(decode_jwt_payload("h.!!!.s"), Err(AuthError::InvalidPayloadEncoding));
    // Padded base64 is refused by the unpadded engine.
    assert_eq!(decode_jwt_payload("h.eA==.s"), Err(AuthError::InvalidPayloadEncoding));
    assert_eq!(decode_jwt_payload("h.eA.s"), Ok(b"x".to_vec()));
}

#[test]
fn claims_are_checked_in_order() {
    let ok = authorize_claims(None, "user_1".to_string(), Some(100), Some("sess".to_string()), 50);
    assert_eq!(ok, Ok(("user_1".to_string(), "sess".to_string())));
    // An invalid requested identifier falls back to the subject.
    assert_eq!(
        authorize_claims(Some("x".to_string()), "user_1".to_string(), Some(100), Some("s".to_string()), 50),
        Ok(("user_1".to_string(), "s".to_string()))
    );
    assert_eq!(
        authorize_claims(None, "ab".to_string(), Some(100), None, 50),
        Err(AuthError::InvalidPlayerId)
    );
    assert_eq!(
        authorize_claims(Some(" user_1 ".to_string()), "user_1".to_string(), Some(100), Some("s".to_string()), 50),
        Ok(("user_1".to_string(), "s".to_string()))
    );
    assert_eq!(
        authorize_claims(Some("other".to_string()), "user_1".to_string(), Some(100), None, 50),
        Err(AuthError::SubjectMismatch)
    );
    assert_eq!(
        authorize_claims(None, "user_1".to_string(), None, None, 50),
        Err(AuthError::MissingExpiry)
    );
    assert_eq!(
        authorize_claims(None, "user_1".to_string(), Some(50), None, 50),
        Err(AuthError::TokenExpired)
    );
    assert_eq!(
        authorize_claims(None, "user_1".to_string(), Some(51), None, 50),
        Err(AuthError::MissingSessionId)
    );
}

#[test]
fn session_answers_are_checked() {
    assert_eq!(check_clerk_session("u1", Some("active"), "u1"), Ok(()));
    assert_eq!(check_clerk_session("u1", None, "u1"), Ok(()));
    assert_eq!(check_clerk_session("u2", Some("active"), "u1"), Err(AuthError::SessionUserMismatch));
    assert_eq!(check_clerk_session("u1", Some("revoked"), "u1"), Err(AuthError::SessionNotActive));
}

#[test]
fn movement_axes_from_input() {
    let none = InputState { up: false, down: false, left: false, right: false };
    assert_eq!(movement_axes(none), (0, 0));
    assert_eq!(movement_axes(InputState { up: true, right: true, ..none }), (1, 1));
    assert_eq!(movement_axes(InputState { down: true, left: true, ..none }), (-1, -1));
    assert_eq!(
        movement_axes(InputState { up: true, down: true, left: true, right: true }),
        (0, 0)
    );
}

#[test]
fn client_sprite_rows_and_tints() {
    assert_eq!(FacingDirection::Up.row_index(), 0);
    assert_eq!(FacingDirection::Right.row_index(), 1);
    assert_eq!(FacingDirection::Down.row_index(), 2);
    assert_eq!(FacingDirection::Left.row_index(), 3);
    assert_eq!(terrain_parity_delta(0, 0), 5);
    assert_eq!(terrain_parity_delta(1, 0), -5);
    assert_eq!(terrain_parity_delta(-1, 0), -5);
    assert_eq!(terrain_parity_delta(i32::MAX, i32::MIN), -5);
    assert_eq!(tint_channel(250, 10), 255);
    assert_eq!(tint_channel(3, -5), 0);
    assert_eq!(tint_channel(100, -5), 95);
}

#[test]
fn sanitized_identifiers_and_names_are_stable() {
    let id = sanitize_player_id("  user-9 ").unwrap();
    assert_eq!(sanitize_player_id(&id), Some(id.clone()));
    let character = sanitize_character_id(" knight:2 ").unwrap();
    assert_eq!(sanitize_character_id(&character), Some(character.clone()));
    let name = sanitize_character_name("  Sir  Robin ").unwrap();
    assert_eq!(name, "Sir  Robin");
    assert_eq!(sanitize_character_name(&name), Some(name.clone()));
    assert_eq!(trim_str(trim_str("\u{2003} x \u{2003}")), trim_str("\u{2003} x \u{2003}"));
}
