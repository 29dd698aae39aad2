//! The room server's checks on identifiers, paths and names, and its
//! build-grid arithmetic.

use vstd::prelude::*;
use vstd::string::*;
use crate::keys::{compare_keys, KeyOrder};
use crate::text::{
    ascii_upper, byte_len, is_ascii_alphanumeric, is_ascii_alphanumeric_spec, is_control,
    is_control_spec, split_on, split_str, to_ascii_uppercase, trim, trim_str,
};

verus! {

/// Shortest accepted player identifier, in bytes.
pub const PLAYER_ID_RE_MIN: usize = 3;
/// Longest accepted player identifier, in bytes.
pub const PLAYER_ID_RE_MAX: usize = 120;
/// Longest accepted room code, in bytes.
pub const ROOM_RE_MAX: usize = 24;
/// Longest accepted protocol identifier, in bytes.
pub const MAX_PROTOCOL_IDENTIFIER_LEN: usize = 64;
/// Longest accepted character name, in bytes; also the number of characters
/// a default name keeps.
pub const MAX_CHARACTER_NAME_LEN: usize = 32;
/// Number of build cells along one side of a chunk.
pub const BUILD_CHUNK_CELLS: i64 = 32;

/// A character allowed in room codes and player identifiers.
pub open spec fn is_room_char(c: char) -> bool {
    is_ascii_alphanumeric_spec(c) || c == '_' || c == '-'
}

/// A character allowed in protocol identifiers.
pub open spec fn is_identifier_char(c: char) -> bool {
    is_room_char(c) || c == ':'
}

/// Every character is allowed in a room code.
pub open spec fn all_room_chars(s: Seq<char>) -> bool {
    forall|i: int| 0 <= i < s.len() ==> is_room_char(#[trigger] s[i])
}

/// Every character is allowed in a protocol identifier.
pub open spec fn all_identifier_chars(s: Seq<char>) -> bool {
    forall|i: int| 0 <= i < s.len() ==> is_identifier_char(#[trigger] s[i])
}

/// The text upper-cased in ASCII.
pub open spec fn upper(s: Seq<char>) -> Seq<char> {
    s.map_values(|c: char| ascii_upper(c))
}

/// A room code: the input trimmed and upper-cased, when it is 1 to 24 bytes
/// of ASCII letters, digits, `_` and `-`.
pub open spec fn room_code_spec(input: Seq<char>) -> Option<Seq<char>> {
    let candidate = upper(trim(input));
    if candidate.len() == 0 || byte_len(candidate) > ROOM_RE_MAX {
        None
    } else if all_room_chars(candidate) {
        Some(candidate)
    } else {
        None
    }
}

/// A player identifier: the input trimmed, when it is 3 to 120 bytes of ASCII
/// letters, digits, `_` and `-`.
pub open spec fn player_id_spec(input: Seq<char>) -> Option<Seq<char>> {
    let candidate = trim(input);
    if byte_len(candidate) < PLAYER_ID_RE_MIN || byte_len(candidate) > PLAYER_ID_RE_MAX {
        None
    } else if all_room_chars(candidate) {
        Some(candidate)
    } else {
        None
    }
}

/// A protocol identifier: once trimmed, 1 to 64 bytes of ASCII letters,
/// digits, `_`, `-` and `:`.
pub open spec fn identifier_spec(input: Seq<char>) -> bool {
    let candidate = trim(input);
    candidate.len() > 0 && byte_len(candidate) <= MAX_PROTOCOL_IDENTIFIER_LEN && all_identifier_chars(
        candidate,
    )
}

/// A character name: the input trimmed, when it is 1 to 32 bytes and holds
/// no control character.
pub open spec fn character_name_spec(input: Seq<char>) -> Option<Seq<char>> {
    let candidate = trim(input);
    if candidate.len() == 0 || byte_len(candidate) > MAX_CHARACTER_NAME_LEN {
        None
    } else if exists|i: int| 0 <= i < candidate.len() && is_control_spec(#[trigger] candidate[i]) {
        None
    } else {
        Some(candidate)
    }
}

/// A character identifier: the input trimmed, when it is a protocol identifier.
pub open spec fn character_id_spec(input: Seq<char>) -> Option<Seq<char>> {
    if identifier_spec(trim(input)) {
        Some(trim(input))
    } else {
        None
    }
}

/// The characters of a text that are not control characters, in order.
pub open spec fn without_controls(s: Seq<char>) -> Seq<char>
    decreases s.len(),
{
    if s.len() == 0 {
        Seq::empty()
    } else if is_control_spec(s.last()) {
        without_controls(s.drop_last())
    } else {
        without_controls(s.drop_last()).push(s.last())
    }
}

/// The display name a player gets by default: the first 32 non-control
/// characters of the trimmed identifier, or `Player` when there are none.
pub open spec fn default_name_spec(player_id: Seq<char>) -> Seq<char> {
    let kept = without_controls(trim(player_id));
    if kept.len() == 0 {
        "Player"@
    } else if kept.len() > MAX_CHARACTER_NAME_LEN {
        kept.take(MAX_CHARACTER_NAME_LEN as int)
    } else {
        kept
    }
}

/// The room code in a websocket path `/api/rooms/<code>/ws`.
pub open spec fn room_path_spec(path: Seq<char>) -> Option<Seq<char>> {
    let parts = split_on(path, '/');
    if parts.len() != 5 {
        None
    } else if parts[1] != "api"@ || parts[2] != "rooms"@ || parts[4] != "ws"@ {
        None
    } else {
        room_code_spec(parts[3])
    }
}

/// The structure kinds a player may build.
pub open spec fn structure_kind_spec(kind: Seq<char>) -> bool {
    kind == "beacon"@ || kind == "miner"@ || kind == "assembler"@
}

pub proof fn lemma_without_controls_append(a: Seq<char>, b: Seq<char>)
    ensures
        without_controls(a + b) == without_controls(a) + without_controls(b),
    decreases b.len(),
{
    if b.len() == 0 {
        assert(a + b =~= a);
        assert(without_controls(a) + Seq::<char>::empty() =~= without_controls(a));
    } else {
        assert((a + b).drop_last() =~= a + b.drop_last());
        assert((a + b).last() == b.last());
        lemma_without_controls_append(a, b.drop_last());
        if !is_control_spec(b.last()) {
            assert(without_controls(a) + without_controls(b.drop_last()).push(b.last())
                =~= (without_controls(a) + without_controls(b.drop_last())).push(b.last()));
        }
    }
}

pub proof fn lemma_without_controls_len(s: Seq<char>)
    ensures
        without_controls(s).len() <= s.len(),
    decreases s.len(),
{
    if s.len() > 0 {
        lemma_without_controls_len(s.drop_last());
    }
}

/// Whether every character of `s` is allowed in a room code (or, with
/// `allow_colon`, in a protocol identifier).
fn all_allowed(s: &str, allow_colon: bool) -> (ok: bool)
    ensures
        ok == (if allow_colon {
            all_identifier_chars(s@)
        } else {
            all_room_chars(s@)
        }),
{
    let n = s.unicode_len();
    let mut i: usize = 0;
    while i < n
        invariant
            n == s@.len(),
            i <= n,
            forall|j: int|
                0 <= j < i ==> (if allow_colon {
                    is_identifier_char(#[trigger] s@[j])
                } else {
                    is_room_char(s@[j])
                }),
        decreases n - i,
    {
        let c = s.get_char(i);
        let allowed = is_ascii_alphanumeric(c) || c == '_' || c == '-' || (allow_colon && c == ':');
        if !allowed {
            return false;
        }
        i += 1;
    }
    true
}

/// Normalizes a room code (see [`room_code_spec`]).
pub fn sanitize_room_code(input: &str) -> (code: Option<String>)
    ensures
        code is Some <==> room_code_spec(input@) is Some,
        code matches Some(c) ==> c@ == room_code_spec(input@)->0,
{
    let candidate = to_ascii_uppercase(trim_str(input));
    if candidate.as_str().is_empty() || candidate.as_str().as_bytes().len() > ROOM_RE_MAX {
        return None;
    }
    if all_allowed(candidate.as_str(), false) {
        Some(candidate)
    } else {
        None
    }
}

/// Validates a player identifier (see [`player_id_spec`]).
pub fn sanitize_player_id(input: &str) -> (id: Option<String>)
    ensures
        id is Some <==> player_id_spec(input@) is Some,
        id matches Some(c) ==> c@ == player_id_spec(input@)->0,
{
    let candidate = trim_str(input);
    if candidate.as_bytes().len() < PLAYER_ID_RE_MIN || candidate.as_bytes().len() > PLAYER_ID_RE_MAX {
        return None;
    }

    if all_allowed(candidate, false) {
        Some(String::from_str(candidate))
    } else {
        None
    }
}

/// Whether `input` is a protocol identifier (see [`identifier_spec`]).
pub fn is_valid_protocol_identifier(input: &str) -> (ok: bool)
    ensures
        ok == identifier_spec(input@),
{
    let candidate = trim_str(input);
    if candidate.is_empty() || candidate.as_bytes().len() > MAX_PROTOCOL_IDENTIFIER_LEN {
        return false;
    }
    all_allowed(candidate, true)
}

/// Validates a character name (see [`character_name_spec`]).
pub fn sanitize_character_name(input: &str) -> (name: Option<String>)
    ensures
        name is Some <==> character_name_spec(input@) is Some,
        name matches Some(c) ==> c@ == character_name_spec(input@)->0,
{
    let candidate = trim_str(input);
    if candidate.is_empty() || candidate.as_bytes().len() > MAX_CHARACTER_NAME_LEN {
        return None;
    }
    let n = candidate.unicode_len();
    let mut i: usize = 0;
    while i < n
        invariant
            n == candidate@.len(),
            i <= n,
            candidate@ == trim(input@),
            candidate@.len() > 0,
            byte_len(candidate@) <= MAX_CHARACTER_NAME_LEN,
            forall|j: int| 0 <= j < i ==> !is_control_spec(#[trigger] candidate@[j]),
        decreases n - i,
    {
        let c = candidate.get_char(i);
        if is_control(c) {
            assert(is_control_spec(candidate@[i as int]));
            return None;
        }
        i += 1;
    }
    Some(String::from_str(candidate))
}

/// Validates a character identifier (see [`character_id_spec`]).
pub fn sanitize_character_id(input: &str) -> (id: Option<String>)
    ensures
        id is Some <==> character_id_spec(input@) is Some,
        id matches Some(c) ==> c@ == character_id_spec(input@)->0,
{
    let candidate = trim_str(input);
    if !is_valid_protocol_identifier(candidate) {
        return None;
    }
    Some(String::from_str(candidate))
}

/// The display name a player gets by default (see [`default_name_spec`]).
pub fn default_character_name_for_player(player_id: &str) -> (name: String)
    ensures
        name@ == default_name_spec(player_id@),
{
    let trimmed = trim_str(player_id);
    let n = trimmed.unicode_len();
    let mut display_name = String::from_str("");
    let mut count: usize = 0;
    let mut i: usize = 0;
    proof {
        assert(trimmed@.take(0) =~= Seq::<char>::empty());
        reveal_strlit("");
    }
    while i < n && count < MAX_CHARACTER_NAME_LEN
        invariant
            n == trimmed@.len(),
            i <= n,
            count <= MAX_CHARACTER_NAME_LEN,
            display_name@ == without_controls(trimmed@.take(i as int)),
            count == display_name@.len(),
        decreases n - i,
    {
        let c = trimmed.get_char(i);
        proof {
            assert(trimmed@.take(i + 1).drop_last() =~= trimmed@.take(i as int));
            assert(trimmed@.take(i + 1).last() == c);
        }
        if !is_control(c) {
            display_name.append(trimmed.substring_char(i, i + 1));
            proof {
                assert(trimmed@.subrange(i as int, i + 1) =~= seq![c]);
                assert(display_name@ =~= without_controls(trimmed@.take(i as int)).push(c));
            }
            count += 1;
        }
        i += 1;
    }
    proof {
        let all = trimmed@;
        assert(all =~= all.take(i as int) + all.skip(i as int));
        lemma_without_controls_append(all.take(i as int), all.skip(i as int));
        lemma_without_controls_len(all.skip(i as int));
        if i == n {
            assert(all.skip(i as int) =~= Seq::<char>::empty());
            assert(without_controls(all) =~= display_name@);
        } else {
            assert(without_controls(all).take(MAX_CHARACTER_NAME_LEN as int) =~= display_name@);
        }
    }
    if count == 0 {
        String::from_str("Player")
    } else {
        display_name
    }
}

/// The room code of a websocket path (see [`room_path_spec`]).
pub fn parse_room_code_from_path(path: &str) -> (code: Option<String>)
    ensures
        code is Some <==> room_path_spec(path@) is Some,
        code matches Some(c) ==> c@ == room_path_spec(path@)->0,
{
    let parts = split_str(path, '/');
    if parts.len() != 5 {
        return None;
    }
    let api = compare_keys(parts[1].as_str(), "api");
    let rooms = compare_keys(parts[2].as_str(), "rooms");
    let ws = compare_keys(parts[4].as_str(), "ws");
    match (api, rooms, ws) {
        (KeyOrder::Equal, KeyOrder::Equal, KeyOrder::Equal) => {},
        _ => {
            return None;
        },
    }
    sanitize_room_code(parts[3].as_str())
}

/// Whether players may build structures of this kind.
pub fn is_valid_structure_kind(kind: &str) -> (ok: bool)
    ensures
        ok == structure_kind_spec(kind@),
{
    let beacon = compare_keys(kind, "beacon");
    let miner = compare_keys(kind, "miner");
    let assembler = compare_keys(kind, "assembler");
    beacon == KeyOrder::Equal || miner == KeyOrder::Equal || assembler == KeyOrder::Equal
}

/// Whether a structure already stands on build cell (`grid_x`, `grid_y`),
/// given the cells of the room's structures.
pub fn build_cell_taken(cells: &[(i64, i64)], grid_x: i64, grid_y: i64) -> (taken: bool)
    ensures
        taken == exists|i: int| 0 <= i < cells@.len() && #[trigger] cells@[i] == (grid_x, grid_y),
{
    let mut i: usize = 0;
    while i < cells.len()
        invariant
            i <= cells@.len(),
            forall|j: int| 0 <= j < i ==> #[trigger] cells@[j] != (grid_x, grid_y),
        decreases cells@.len() - i,
    {
        let (x, y) = cells[i];
        if x == grid_x && y == grid_y {
            return true;
        }
        i += 1;
    }
    false
}

/// The chunk that holds grid cell `grid_axis` along one axis: the floor of
/// `grid_axis / BUILD_CHUNK_CELLS`, so that negative cells fall into negative chunks.
pub fn chunk_coord_for_grid(grid_axis: i64) -> (chunk: i64)
    ensures
        chunk == (grid_axis as int) / 32,
        chunk * 32 <= grid_axis < chunk * 32 + 32,
{
    if grid_axis >= 0 {
        grid_axis / BUILD_CHUNK_CELLS
    } else {
        ((grid_axis + 1) / BUILD_CHUNK_CELLS) - 1
    }
}

} // verus!
