//! Random passwords over a chosen character set.
use crate::cipher::{fill_from_os, string_from_utf8};
use crate::store::VaultError;
use vstd::prelude::*;
use vstd::utf8::*;

verus! {

/// The shortest password that is generated.
pub const MIN_PASSWORD_LEN: usize = 8;

/// The longest password that is generated.
pub const MAX_PASSWORD_LEN: usize = 128;

/// The bytes `first`, `first + 1`, ... of a run of `n`.
pub open spec fn byte_run(first: u8, n: nat) -> Seq<u8> {
    Seq::new(n, |i: int| (first + i) as u8)
}

/// The symbols that a password may hold.
pub open spec fn symbol_bytes() -> Seq<u8> {
    seq![
        33u8, 64, 35, 36, 37, 94, 38, 42, 40, 41, 95, 43, 45, 61, 91, 93, 123, 125, 124, 59, 58,
        44, 46, 60, 62, 63,
    ]
}

/// The characters a password is drawn from, as ASCII bytes: the lowercase
/// letters, then the uppercase letters, the digits and the symbols where
/// asked for.
pub open spec fn charset(use_symbols: bool, use_numbers: bool, use_uppercase: bool) -> Seq<u8> {
    byte_run(97, 26) + (if use_uppercase {
        byte_run(65, 26)
    } else {
        Seq::empty()
    }) + (if use_numbers {
        byte_run(48, 10)
    } else {
        Seq::empty()
    }) + (if use_symbols {
        symbol_bytes()
    } else {
        Seq::empty()
    })
}

/// The password that a sequence of random draws picks from a character
/// set: one character per draw, the draw taken modulo the set's size.
pub open spec fn picked(set: Seq<u8>, draws: Seq<u32>) -> Seq<char> {
    Seq::new(draws.len(), |i: int| set[draws[i] as int % set.len() as int] as char)
}

/// `c` is one of the characters of the set.
pub open spec fn in_charset(c: char, set: Seq<u8>) -> bool {
    exists|k: int| 0 <= k < set.len() && c == set[k] as char
}

/// A length that passwords are generated with.
pub open spec fn valid_length(length: int) -> bool {
    MIN_PASSWORD_LEN <= length <= MAX_PASSWORD_LEN
}

fn push_run(out: &mut Vec<u8>, first: u8, n: u8)
    requires
        first + n <= 128,
    ensures
        final(out)@ == old(out)@ + byte_run(first, n as nat),
{
    let mut i: u8 = 0;
    while i < n
        invariant
            first + n <= 128,
            i <= n,
            out@ == old(out)@ + byte_run(first, i as nat),
        decreases n - i,
    {
        out.push(first + i);
        i += 1;
        assert(out@ =~= old(out)@ + byte_run(first, i as nat));
    }
}

/// The character set as a vector of ASCII bytes.
fn charset_bytes(use_symbols: bool, use_numbers: bool, use_uppercase: bool) -> (r: Vec<u8>)
    ensures
        r@ == charset(use_symbols, use_numbers, use_uppercase),
        26 <= r@.len() <= 88,
        forall|k: int| 0 <= k < r@.len() ==> r@[k] < 128,
{
    let mut set: Vec<u8> = Vec::new();
    push_run(&mut set, 97, 26);
    let ghost lower = set@;
    if use_uppercase {
        push_run(&mut set, 65, 26);
    }
    let ghost upper = set@;
    if use_numbers {
        push_run(&mut set, 48, 10);
    }
    let ghost digits = set@;
    if use_symbols {
        let mut symbols: Vec<u8> = vec![
            33u8, 64, 35, 36, 37, 94, 38, 42, 40, 41, 95, 43, 45, 61, 91, 93, 123, 125, 124, 59, 58,
            44, 46, 60, 62, 63,
        ];
        assert(symbols@ == symbol_bytes());
        set.append(&mut symbols);
    }
    assert(set@ =~= charset(use_symbols, use_numbers, use_uppercase));
    set
}

/// ASCII bytes read as UTF-8 are those characters.
proof fn lemma_ascii_text(bytes: Seq<u8>)
    requires
        forall|i: int| 0 <= i < bytes.len() ==> bytes[i] < 128,
    ensures
        valid_utf8(bytes),
        decode_utf8(bytes) == Seq::new(bytes.len(), |i: int| bytes[i] as char),
{
    let chars = Seq::new(bytes.len(), |i: int| bytes[i] as char);
    assert(is_ascii_chars(chars));
    is_ascii_chars_encode_utf8(chars);
    assert(encode_utf8(chars) =~= bytes);
    encode_utf8_valid_utf8(chars);
    encode_utf8_decode_utf8(chars);
}

/// The password that the given random draws pick, one character per draw;
/// its length is the number of draws, which must lie in
/// [`MIN_PASSWORD_LEN`, `MAX_PASSWORD_LEN`].
pub fn password_from_draws(
    draws: &Vec<u32>,
    use_symbols: bool,
    use_numbers: bool,
    use_uppercase: bool,
) -> (r: Result<String, VaultError>)
    ensures
        r is Err <==> !valid_length(draws@.len() as int),
        r matches Err(e) ==> e == VaultError::InvalidLength,
        r matches Ok(s) ==> s@ == picked(charset(use_symbols, use_numbers, use_uppercase), draws@),
{
    if draws.len() < MIN_PASSWORD_LEN || draws.len() > MAX_PASSWORD_LEN {
        return Err(VaultError::InvalidLength);
    }
    let set = charset_bytes(use_symbols, use_numbers, use_uppercase);
    let n = set.len();
    let mut bytes: Vec<u8> = Vec::new();
    let mut i: usize = 0;
    while i < draws.len()
        invariant
            set@ == charset(use_symbols, use_numbers, use_uppercase),
            n == set@.len(),
            26 <= n,
            forall|k: int| 0 <= k < n ==> set@[k] < 128,
            i <= draws@.len(),
            bytes@.len() == i,
            forall|k: int| 0 <= k < i ==> bytes@[k] == set@[draws@[k] as int % n as int],
        decreases draws.len() - i,
    {
        let idx = (draws[i] as usize) % n;
        bytes.push(set[idx]);
        i += 1;
    }
    proof {
        lemma_ascii_text(bytes@);
        assert(Seq::new(bytes@.len(), |k: int| bytes@[k] as char) =~= picked(set@, draws@));
    }
    match string_from_utf8(bytes) {
        Ok(s) => Ok(s),
        Err(_) => Err(VaultError::InvalidLength),
    }
}

/// A random password of `length` characters drawn from the lowercase
/// letters and, where asked for, the uppercase letters, digits and
/// symbols, with draws from the operating system's generator;
/// `VaultError::InvalidLength` outside
/// [`MIN_PASSWORD_LEN`, `MAX_PASSWORD_LEN`], and
/// `VaultError::RandomnessUnavailable` where the system has no randomness
/// to give.
pub fn generate_password(length: usize, use_symbols: bool, use_numbers: bool, use_uppercase: bool) -> (r: Result<String, VaultError>)
    ensures
        !valid_length(length as int) ==> r == Err::<String, VaultError>(VaultError::InvalidLength),
        valid_length(length as int) ==> (r matches Err(e) ==> e == VaultError::RandomnessUnavailable),
        r matches Ok(s) ==> s@.len() == length && forall|i: int|
            0 <= i < length ==> in_charset(#[trigger] s@[i], charset(use_symbols, use_numbers, use_uppercase)),
{
    if length < MIN_PASSWORD_LEN || length > MAX_PASSWORD_LEN {
        return Err(VaultError::InvalidLength);
    }
    let mut bytes: Vec<u8> = vec![0u8; 4 * length];
    if !fill_from_os(&mut bytes) {
        return Err(VaultError::RandomnessUnavailable);
    }
    let mut draws: Vec<u32> = Vec::new();
    while draws.len() < length
        invariant
            length <= MAX_PASSWORD_LEN,
            bytes@.len() == 4 * length,
            draws@.len() <= length,
        decreases length - draws@.len(),
    {
        let k = 4 * draws.len();
        let draw: u32 = (bytes[k] as u32) | ((bytes[k + 1] as u32) << 8) | ((bytes[k + 2] as u32)
            << 16) | ((bytes[k + 3] as u32) << 24);
        draws.push(draw);
    }
    let r = password_from_draws(&draws, use_symbols, use_numbers, use_uppercase);
    proof {
        let set = charset(use_symbols, use_numbers, use_uppercase);
        if r is Ok {
            let s = r->Ok_0;
            assert forall|i: int| 0 <= i < length implies in_charset(#[trigger] s@[i], set) by {
                let k = draws@[i] as int % set.len() as int;
                assert(s@[i] == set[k] as char);
            }
        }
    }
    r
}

} // verus!
