//! SPAKE2 pairing.
//!
//! The two ends share a pairing code and derive one key from it. The initiator plays side A, the
//! responder side B; both bind the key to this service through the two identity strings.
//!
//! A session keeps the random seed of its secret scalar, so that the whole exchange is a function
//! of plain values: the password, the seed and the message of the other side.

use rand::rngs::StdRng;
use rand::SeedableRng;
use spake2::{Ed25519Group, Identity, Password, Spake2};
use vstd::prelude::*;

use crate::bytes::array32;
use crate::crypto::random::{os_random_32, random_bytes};
use crate::error::CryptoError;
use crate::text;
use crate::text::{alnum, chars_of, upper};

verus! {

/// The identity string of the initiator.
pub const ID_A: &'static str = "clipsync-initiator";

/// The identity string of the responder.
pub const ID_B: &'static str = "clipsync-responder";

/// Why an exchange could not be finished.
#[derive(Clone, Copy, PartialEq, Eq, Structural, Debug)]
pub enum PakeFault {
    /// The message does not come from the other side of the exchange.
    BadSide,
    /// The message holds no element of the group.
    CorruptMessage,
    /// The message does not have 33 bytes.
    WrongLength,
}

/// The message of side A.
pub uninterp spec fn spake2_message_a(pw: Seq<u8>, id_a: Seq<u8>, id_b: Seq<u8>, seed: Seq<u8>) -> Seq<u8>;

/// The message of side B.
pub uninterp spec fn spake2_message_b(pw: Seq<u8>, id_a: Seq<u8>, id_b: Seq<u8>, seed: Seq<u8>) -> Seq<u8>;

/// What side A ends with on the message `peer`.
pub uninterp spec fn spake2_finish_a(pw: Seq<u8>, id_a: Seq<u8>, id_b: Seq<u8>, seed: Seq<u8>, peer: Seq<u8>) -> Result<Seq<u8>, PakeFault>;

/// What side B ends with on the message `peer`.
pub uninterp spec fn spake2_finish_b(pw: Seq<u8>, id_a: Seq<u8>, id_b: Seq<u8>, seed: Seq<u8>, peer: Seq<u8>) -> Result<Seq<u8>, PakeFault>;

/// A result with the bytes of its key in place of the vector.
pub open spec fn key_view(r: Result<Vec<u8>, PakeFault>) -> Result<Seq<u8>, PakeFault> {
    match r {
        Ok(k) => Ok(k@),
        Err(e) => Err(e),
    }
}

/// Calls `Spake2::start_a_with_rng` on a generator seeded with `seed` and keeps the message: the
/// byte `A` and 32 bytes of a group element. It depends on the arguments alone.
#[verifier::external_body]
fn start_side_a(pw: &[u8], id_a: &[u8], id_b: &[u8], seed: &[u8; 32]) -> (r: Vec<u8>)
    ensures
        r@ == spake2_message_a(pw@, id_a@, id_b@, seed@),
        r@.len() == 33,
        r@[0] == 0x41,
{
    Spake2::<Ed25519Group>::start_a_with_rng(
        &Password::new(pw),
        &Identity::new(id_a),
        &Identity::new(id_b),
        StdRng::from_seed(*seed),
    ).1
}

/// Calls `Spake2::start_b_with_rng` on a generator seeded with `seed` and keeps the message: the
/// byte `B` and 32 bytes of a group element. It depends on the arguments alone.
#[verifier::external_body]
fn start_side_b(pw: &[u8], id_a: &[u8], id_b: &[u8], seed: &[u8; 32]) -> (r: Vec<u8>)
    ensures
        r@ == spake2_message_b(pw@, id_a@, id_b@, seed@),
        r@.len() == 33,
        r@[0] == 0x42,
{
    Spake2::<Ed25519Group>::start_b_with_rng(
        &Password::new(pw),
        &Identity::new(id_a),
        &Identity::new(id_b),
        StdRng::from_seed(*seed),
    ).1
}

/// Calls `Spake2::finish` on side A. A message that does not have 33 bytes or does not begin with
/// the byte `B` is an error; the key has 32 bytes. On a message that side B makes from the same
/// password and identities, both sides end with the same key.
#[verifier::external_body]
fn finish_side_a(pw: &[u8], id_a: &[u8], id_b: &[u8], seed: &[u8; 32], peer: &[u8]) -> (r: Result<Vec<u8>, PakeFault>)
    ensures
        key_view(r) == spake2_finish_a(pw@, id_a@, id_b@, seed@, peer@),
        (r matches Err(e) && e is WrongLength) == (peer@.len() != 33),
        (r matches Err(e) && e is BadSide) == (peer@.len() == 33 && peer@[0] != 0x42),
        r matches Ok(k) ==> k@.len() == 32,
        forall|other: Seq<u8>|
            other.len() == 32 && peer@ == #[trigger] spake2_message_b(pw@, id_a@, id_b@, other)
                ==> r is Ok && key_view(r) == spake2_finish_b(pw@, id_a@, id_b@, other, spake2_message_a(pw@, id_a@, id_b@, seed@)),
{
    let (side, _) = Spake2::<Ed25519Group>::start_a_with_rng(
        &Password::new(pw),
        &Identity::new(id_a),
        &Identity::new(id_b),
        StdRng::from_seed(*seed),
    );
    side.finish(peer).map_err(|e| match e {
        spake2::Error::BadSide => PakeFault::BadSide,
        spake2::Error::CorruptMessage => PakeFault::CorruptMessage,
        spake2::Error::WrongLength => PakeFault::WrongLength,
    })
}

/// Calls `Spake2::finish` on side B. A message that does not have 33 bytes or does not begin with
/// the byte `A` is an error; the key has 32 bytes.
#[verifier::external_body]
fn finish_side_b(pw: &[u8], id_a: &[u8], id_b: &[u8], seed: &[u8; 32], peer: &[u8]) -> (r: Result<Vec<u8>, PakeFault>)
    ensures
        key_view(r) == spake2_finish_b(pw@, id_a@, id_b@, seed@, peer@),
        (r matches Err(e) && e is WrongLength) == (peer@.len() != 33),
        (r matches Err(e) && e is BadSide) == (peer@.len() == 33 && peer@[0] != 0x41),
        r matches Ok(k) ==> k@.len() == 32,
{
    let (side, _) = Spake2::<Ed25519Group>::start_b_with_rng(
        &Password::new(pw),
        &Identity::new(id_a),
        &Identity::new(id_b),
        StdRng::from_seed(*seed),
    );
    side.finish(peer).map_err(|e| match e {
        spake2::Error::BadSide => PakeFault::BadSide,
        spake2::Error::CorruptMessage => PakeFault::CorruptMessage,
        spake2::Error::WrongLength => PakeFault::WrongLength,
    })
}

/// The initiator's side of a pairing.
pub struct Initiator {
    pub password: String,
    pub seed: [u8; 32],
    pub message: Vec<u8>,
}

/// The responder's side of a pairing.
pub struct Responder {
    pub password: String,
    pub seed: [u8; 32],
    pub message: Vec<u8>,
}

/// The bytes of the two identity strings.
pub open spec fn id_a_bytes() -> Seq<u8> {
    text::utf8(ID_A@)
}

/// The bytes of the two identity strings.
pub open spec fn id_b_bytes() -> Seq<u8> {
    text::utf8(ID_B@)
}

impl Initiator {
    /// Ends the exchange on the responder's message.
    pub fn finish(self, peer_message: &[u8]) -> (r: Result<[u8; 32], CryptoError>)
        ensures
            finished(r, spake2_finish_a(text::utf8(self.password@), id_a_bytes(), id_b_bytes(), self.seed@, peer_message@)),
            peer_message@.len() != 33 ==> (r matches Err(CryptoError::InvalidKey(m)) && m@ == "WrongLength"@),
            peer_message@.len() == 33 && peer_message@[0] != 0x42 ==> (r matches Err(CryptoError::InvalidKey(m)) && m@ == "BadSide"@),
            forall|other: Seq<u8>|
                other.len() == 32 && peer_message@ == #[trigger] spake2_message_b(text::utf8(self.password@), id_a_bytes(), id_b_bytes(), other)
                    ==> (r matches Ok(k) && spake2_finish_b(text::utf8(self.password@), id_a_bytes(), id_b_bytes(), other,
                        spake2_message_a(text::utf8(self.password@), id_a_bytes(), id_b_bytes(), self.seed@)) == Ok::<Seq<u8>, PakeFault>(k@)),
    {
        derive(finish_side_a(self.password.as_str().as_bytes(), ID_A.as_bytes(), ID_B.as_bytes(), &self.seed, peer_message))
    }
}

impl Responder {
    /// Ends the exchange on the initiator's message.
    pub fn finish(self, peer_message: &[u8]) -> (r: Result<[u8; 32], CryptoError>)
        ensures
            finished(r, spake2_finish_b(text::utf8(self.password@), id_a_bytes(), id_b_bytes(), self.seed@, peer_message@)),
            peer_message@.len() != 33 ==> (r matches Err(CryptoError::InvalidKey(m)) && m@ == "WrongLength"@),
            peer_message@.len() == 33 && peer_message@[0] != 0x41 ==> (r matches Err(CryptoError::InvalidKey(m)) && m@ == "BadSide"@),
    {
        derive(finish_side_b(self.password.as_str().as_bytes(), ID_A.as_bytes(), ID_B.as_bytes(), &self.seed, peer_message))
    }
}

/// The name of a fault, as it stands in an error.
pub open spec fn fault_name(f: PakeFault) -> Seq<char> {
    match f {
        PakeFault::BadSide => "BadSide"@,
        PakeFault::CorruptMessage => "CorruptMessage"@,
        PakeFault::WrongLength => "WrongLength"@,
    }
}

/// `r` is the outcome `o` of an exchange: its key, or an invalid-key error with the fault's name.
pub open spec fn finished(r: Result<[u8; 32], CryptoError>, o: Result<Seq<u8>, PakeFault>) -> bool {
    match r {
        Ok(k) => o == Ok::<Seq<u8>, PakeFault>(k@),
        Err(e) => o matches Err(f) && e matches CryptoError::InvalidKey(m) && m@ == fault_name(f),
    }
}

fn derive(res: Result<Vec<u8>, PakeFault>) -> (r: Result<[u8; 32], CryptoError>)
    requires
        res matches Ok(k) ==> k@.len() == 32,
    ensures
        finished(r, key_view(res)),
{
    match res {
        Ok(k) => {
            assert(k@.subrange(0, 32) =~= k@);
            Ok(array32(&k, 0))
        },
        Err(PakeFault::BadSide) => Err(CryptoError::InvalidKey("BadSide".to_owned())),
        Err(PakeFault::CorruptMessage) => Err(CryptoError::InvalidKey("CorruptMessage".to_owned())),
        Err(PakeFault::WrongLength) => Err(CryptoError::InvalidKey("WrongLength".to_owned())),
    }
}

/// Starts a pairing as initiator. `message` goes to the responder: 33 bytes.
pub fn start_initiator(password: &str) -> (r: Initiator)
    ensures
        r.password@ == password@,
        r.message@ == spake2_message_a(text::utf8(password@), id_a_bytes(), id_b_bytes(), r.seed@),
        r.message@.len() == 33,
{
    let seed = os_random_32();
    let message = start_side_a(password.as_bytes(), ID_A.as_bytes(), ID_B.as_bytes(), &seed);
    Initiator { password: password.to_owned(), seed, message }
}

/// Starts a pairing as responder. `message` goes to the initiator: 33 bytes.
pub fn start_responder(password: &str) -> (r: Responder)
    ensures
        r.password@ == password@,
        r.message@ == spake2_message_b(text::utf8(password@), id_a_bytes(), id_b_bytes(), r.seed@),
        r.message@.len() == 33,
{
    let seed = os_random_32();
    let message = start_side_b(password.as_bytes(), ID_A.as_bytes(), ID_B.as_bytes(), &seed);
    Responder { password: password.to_owned(), seed, message }
}

/// The symbols that a generated pairing code is made of: digits and capitals without the ones that
/// are easily mistaken for each other (`0`, `O`, `1`, `I`, `L`).
pub const CODE_ALPHABET: &'static str = "23456789ABCDEFGHJKMNPQRSTUVWXYZ";

/// The number of symbols in a pairing code.
///
/// The tag that confirms a pairing is a function of the key, so whoever has seen one tag can try
/// codes offline: six digits would fall in seconds, twelve symbols do not.
pub const CODE_LEN: usize = 12;

/// `c` may stand in a pairing code: a symbol of the alphabet, or a `1` that was typed.
pub open spec fn is_code_symbol(c: char) -> bool {
    CODE_ALPHABET@.contains(c) || c == '1'
}

/// The pairing code that random bytes give: one symbol for each byte.
pub open spec fn code_of(random: Seq<u8>) -> Seq<char> {
    Seq::new(random.len(), |i: int| CODE_ALPHABET@[random[i] as int % 31])
}

/// The number of random bytes that a pairing code is chosen from.
pub const DRAW_LEN: usize = 64;

/// The bytes that give every symbol with the same chance: below the greatest multiple of 31.
pub open spec fn even_bytes(drawn: Seq<u8>) -> Seq<u8>
    decreases drawn.len(),
{
    if drawn.len() == 0 {
        seq![]
    } else if drawn.last() < 248 {
        even_bytes(drawn.drop_last()).push(drawn.last())
    } else {
        even_bytes(drawn.drop_last())
    }
}

/// The bytes that a pairing code is made of: the first that give every symbol with the same chance.
/// Where these are too few, which a draw of 64 bytes will hardly ever bring, the first bytes fill up.
pub open spec fn chosen_bytes(drawn: Seq<u8>) -> Seq<u8> {
    (even_bytes(drawn) + drawn).take(CODE_LEN as int)
}

/// The bytes that a pairing code is made of.
pub fn choose_bytes(drawn: &[u8]) -> (r: Vec<u8>)
    requires
        drawn@.len() >= CODE_LEN,
    ensures
        r@ == chosen_bytes(drawn@),
        r@.len() == CODE_LEN,
{
    let n: usize = drawn.len();
    let mut r: Vec<u8> = Vec::new();
    let mut i: usize = 0;
    while i < n
        invariant
            n == drawn@.len(),
            i <= n,
            r@ == even_bytes(drawn@.take(i as int)),
        decreases n - i,
    {
        assert(drawn@.take(i + 1).drop_last() =~= drawn@.take(i as int));
        if drawn[i] < 248 {
            r.push(drawn[i]);
        }
        i += 1;
    }
    assert(drawn@.take(n as int) =~= drawn@);
    let mut k: usize = 0;
    assert(r@ =~= even_bytes(drawn@) + drawn@.take(0));
    while r.len() < CODE_LEN
        invariant
            n == drawn@.len(),
            n >= CODE_LEN,
            k <= r@.len(),
            k > 0 ==> r@.len() <= CODE_LEN,
            k <= n,
            r@ == even_bytes(drawn@) + drawn@.take(k as int),
        decreases CODE_LEN - r@.len(),
    {
        r.push(drawn[k]);
        k += 1;
        assert(r@ =~= even_bytes(drawn@) + drawn@.take(k as int));
    }
    r.truncate(CODE_LEN);
    assert(r@ =~= chosen_bytes(drawn@));
    r
}

/// What is left of a pairing code without separators, in capitals.
pub open spec fn normalized_code(s: Seq<char>) -> Seq<char>
    decreases s.len(),
{
    if s.len() == 0 {
        seq![]
    } else {
        let rest = normalized_code(s.drop_last());
        if text::is_alnum(s.last()) {
            rest.push(text::upper_spec(s.last()))
        } else {
            rest
        }
    }
}

/// `code` has the form of a pairing code as a user may type it: twelve symbols, with or without
/// separators, in capitals or small letters.
pub open spec fn is_current_code(code: Seq<char>) -> bool {
    let c = normalized_code(code);
    c.len() == CODE_LEN && forall|i: int| 0 <= i < c.len() ==> is_code_symbol(#[trigger] c[i])
}

/// `code` is what the generator gives on some draw.
pub open spec fn is_drawn_code(code: Seq<char>) -> bool {
    exists|drawn: Seq<u8>|
        drawn.len() == DRAW_LEN && code == code_of(#[trigger] chosen_bytes(drawn))
}

/// The pairing code that random bytes give.
pub fn pairing_code_from(random: &[u8]) -> (r: String)
    ensures
        r@ == code_of(random@),
{
    let alphabet = chars_of(CODE_ALPHABET);
    let mut r = String::new();
    let mut i: usize = 0;
    proof {
        reveal_strlit("23456789ABCDEFGHJKMNPQRSTUVWXYZ");
    }
    while i < random.len()
        invariant
            i <= random@.len(),
            alphabet@ == CODE_ALPHABET@,
            alphabet@.len() == 31,
            r@ == code_of(random@).take(i as int),
        decreases random@.len() - i,
    {
        let k: usize = random[i] as usize % 31;
        r.push(alphabet[k]);
        i += 1;
    }
    r
}

/// A new pairing code, every symbol of which comes with the same chance: what `code_of` gives on the
/// bytes chosen from a random draw.
pub fn generate_pairing_code() -> (r: String)
    ensures
        is_drawn_code(r@),
        exists|random: Seq<u8>| random.len() == CODE_LEN && r@ == code_of(random),
        is_current_code(r@),
        normalized_code(r@) == r@,
        forall|i: int| 0 <= i < r@.len() ==> CODE_ALPHABET@.contains(#[trigger] r@[i]),
{
    let drawn = random_bytes(DRAW_LEN);
    let random = choose_bytes(&drawn);
    let r = pairing_code_from(&random);
    proof {
        law_generated_codes_are_current(random@);
    }
    r
}

/// Every code made from twelve random bytes is current, is its own normal form, and holds symbols
/// of the alphabet only, none of `0`, `1`, `I`, `L`, `O` among them.
pub proof fn law_generated_codes_are_current(random: Seq<u8>)
    requires
        random.len() == CODE_LEN,
    ensures
        is_current_code(code_of(random)),
        normalized_code(code_of(random)) == code_of(random),
        forall|i: int|
            0 <= i < code_of(random).len() ==> CODE_ALPHABET@.contains(#[trigger] code_of(random)[i]),
        forall|i: int|
            0 <= i < code_of(random).len() ==> !"01ILO"@.contains(#[trigger] code_of(random)[i]),
{
    reveal_strlit("23456789ABCDEFGHJKMNPQRSTUVWXYZ");
    reveal_strlit("01ILO");
    let c = code_of(random);
    assert forall|i: int| 0 <= i < c.len() implies CODE_ALPHABET@.contains(#[trigger] c[i]) && is_plain(c[i])
        && !"01ILO"@.contains(c[i]) by {
        let k = random[i] as int % 31;
        assert(c[i] == CODE_ALPHABET@[k]);
    }
    lemma_normalized_plain(c);
}

/// A byte gives the symbol at position `k`.
pub open spec fn gives(b: u8, k: int) -> bool {
    b as int % 31 == k
}

/// Every symbol comes with the same chance: a byte that is chosen is below 248, where enough of them
/// were drawn, and of the bytes below 248 each symbol has eight.
pub proof fn law_symbols_come_evenly(drawn: Seq<u8>)
    requires
        even_bytes(drawn).len() >= CODE_LEN,
    ensures
        forall|i: int| 0 <= i < CODE_LEN ==> #[trigger] chosen_bytes(drawn)[i] < 248,
        forall|b: u8, k: int|
            0 <= k < 31 && b < 248 ==> (#[trigger] gives(b, k) <==> b == k || b == k + 31 || b == k
                + 62 || b == k + 93 || b == k + 124 || b == k + 155 || b == k + 186 || b == k + 217),
{
    lemma_even_bytes(drawn);
    assert forall|i: int| 0 <= i < CODE_LEN implies #[trigger] chosen_bytes(drawn)[i] < 248 by {
        assert(chosen_bytes(drawn)[i] == even_bytes(drawn)[i]);
    }
}

proof fn lemma_even_bytes(drawn: Seq<u8>)
    ensures
        forall|i: int| 0 <= i < even_bytes(drawn).len() ==> #[trigger] even_bytes(drawn)[i] < 248,
    decreases drawn.len(),
{
    if drawn.len() > 0 {
        let t = even_bytes(drawn.drop_last());
        lemma_even_bytes(drawn.drop_last());
        assert forall|i: int| 0 <= i < even_bytes(drawn).len() implies #[trigger] even_bytes(
            drawn,
        )[i] < 248 by {
            if i < t.len() {
                assert(even_bytes(drawn)[i] == t[i]);
            }
        }
    }
}

/// A digit or a capital letter.
spec fn is_plain(c: char) -> bool {
    text::is_digit(c) || 'A' <= c <= 'Z'
}

proof fn lemma_normalized_plain(s: Seq<char>)
    requires
        forall|i: int| 0 <= i < s.len() ==> is_plain(#[trigger] s[i]),
    ensures
        normalized_code(s) == s,
    decreases s.len(),
{
    if s.len() > 0 {
        let t = s.drop_last();
        assert forall|i: int| 0 <= i < t.len() implies is_plain(#[trigger] t[i]) by {
            assert(t[i] == s[i]);
        }
        lemma_normalized_plain(t);
        assert(is_plain(s[s.len() - 1]));
        assert(t.push(s.last()) =~= s);
    }
}

proof fn lemma_normalized_is_plain(s: Seq<char>)
    ensures
        forall|i: int| 0 <= i < normalized_code(s).len() ==> is_plain(#[trigger] normalized_code(s)[i]),
    decreases s.len(),
{
    if s.len() > 0 {
        let rest = normalized_code(s.drop_last());
        lemma_normalized_is_plain(s.drop_last());
        assert forall|i: int| 0 <= i < normalized_code(s).len() implies is_plain(
            #[trigger] normalized_code(s)[i],
        ) by {
            if i < rest.len() {
                assert(normalized_code(s)[i] == rest[i]);
            }
        }
    }
}

/// Normalising a pairing code twice is normalising it once.
pub proof fn law_normalizing_is_idempotent(s: Seq<char>)
    ensures
        normalized_code(normalized_code(s)) == normalized_code(s),
{
    lemma_normalized_is_plain(s);
    lemma_normalized_plain(normalized_code(s));
}

/// A pairing code without separators and white space, in capitals.
///
/// A code may be shown and copied with `-` or blanks; the password is always its normal form.
pub fn normalize_pairing_code(input: &str) -> (r: String)
    ensures
        r@ == normalized_code(input@),
{
    let v = chars_of(input);
    let mut r = String::new();
    let mut i: usize = 0;
    while i < v.len()
        invariant
            i <= v@.len(),
            v@ == input@,
            r@ == normalized_code(v@.take(i as int)),
        decreases v@.len() - i,
    {
        assert(v@.take(i + 1).drop_last() =~= v@.take(i as int));
        if alnum(v[i]) {
            r.push(upper(v[i]));
        }
        i += 1;
    }
    assert(v@.take(i as int) =~= v@);
    r
}

/// Whether `code` has the form that this version hands out.
///
/// Codes of an older form are replaced at start: they are too easily guessed.
pub fn pairing_code_is_current(code: &str) -> (r: bool)
    ensures
        r == is_current_code(code@),
{
    let c = chars_of(normalize_pairing_code(code).as_str());
    if c.len() != CODE_LEN {
        return false;
    }
    let alphabet = chars_of(CODE_ALPHABET);
    let mut i: usize = 0;
    while i < c.len()
        invariant
            i <= c@.len(),
            c@ == normalized_code(code@),
            alphabet@ == CODE_ALPHABET@,
            forall|k: int| 0 <= k < i ==> is_code_symbol(#[trigger] c@[k]),
        decreases c@.len() - i,
    {
        let at: usize = text::find_from(&alphabet, 0, c[i]);
        proof {
            assert(alphabet@.skip(0) =~= alphabet@);
            text::lemma_find(alphabet@, c@[i as int]);
        }
        if at == alphabet.len() && c[i] != '1' {
            assert(!is_code_symbol(c@[i as int]));
            return false;
        }
        i += 1;
    }
    true
}

/// Small and capital letters make no difference to a pairing code: what is typed in small letters has
/// the normal form of what is shown in capitals.
pub proof fn law_case_makes_no_difference(s: Seq<char>, t: Seq<char>)
    requires
        s.len() == t.len(),
        forall|i: int|
            0 <= i < s.len() ==> #[trigger] s[i] == t[i] || ('a' <= s[i] <= 'z' && t[i] as int
                == s[i] as int - 32) || ('a' <= t[i] <= 'z' && s[i] as int == t[i] as int - 32),
    ensures
        normalized_code(s) == normalized_code(t),
    decreases s.len(),
{
    if s.len() > 0 {
        let a = s.drop_last();
        let b = t.drop_last();
        assert forall|i: int| 0 <= i < a.len() implies #[trigger] a[i] == b[i] || ('a' <= a[i] <= 'z'
            && b[i] as int == a[i] as int - 32) || ('a' <= b[i] <= 'z' && a[i] as int == b[i] as int
            - 32) by {
            assert(a[i] == s[i] && b[i] == t[i]);
        }
        law_case_makes_no_difference(a, b);
        let i = s.len() - 1;
        assert(s[i] == t[i] || ('a' <= s[i] <= 'z' && t[i] as int == s[i] as int - 32) || ('a'
            <= t[i] <= 'z' && s[i] as int == t[i] as int - 32));
    }
}

/// The normal form of a pairing code is put together from those of its parts: whatever is typed between
/// letters and digits goes, and every letter and digit stays, in its place, a letter as a capital.
pub proof fn law_normalizing_keeps_letters_and_digits(s: Seq<char>, c: char)
    ensures
        normalized_code(seq![]) == Seq::<char>::empty(),
        'A' <= c <= 'Z' || '0' <= c <= '9' ==> normalized_code(s.push(c)) == normalized_code(s).push(c),
        'a' <= c <= 'z' ==> normalized_code(s.push(c)).len() == normalized_code(s).len() + 1
            && normalized_code(s.push(c)).drop_last() == normalized_code(s) && normalized_code(
            s.push(c),
        ).last() as int == c as int - 32,
        !('A' <= c <= 'Z' || '0' <= c <= '9' || 'a' <= c <= 'z') ==> normalized_code(s.push(c))
            == normalized_code(s),
{
    assert(s.push(c).drop_last() =~= s);
    let r = normalized_code(s.push(c));
    if 'a' <= c <= 'z' {
        assert(r.drop_last() =~= normalized_code(s));
    }
}

/// A code counts as current exactly where twelve letters and digits are left of it and none of them is
/// `0`, `I`, `L` or `O`. A `1` may stand in it.
pub proof fn law_current_codes_have_twelve_clear_symbols(code: Seq<char>)
    ensures
        is_current_code(code) <==> normalized_code(code).len() == 12 && forall|i: int|
            0 <= i < 12 ==> {
                let c = #[trigger] normalized_code(code)[i];
                &&& '1' <= c <= '9' || 'A' <= c <= 'Z'
                &&& c != 'I' && c != 'L' && c != 'O'
            },
{
    reveal_strlit("23456789ABCDEFGHJKMNPQRSTUVWXYZ");
    let n = normalized_code(code);
    lemma_normalized_is_plain(code);
    assert forall|i: int| 0 <= i < n.len() implies (is_code_symbol(#[trigger] n[i]) <==> {
        let c = n[i];
        &&& '1' <= c <= '9' || 'A' <= c <= 'Z'
        &&& c != 'I' && c != 'L' && c != 'O'
    }) by {
        lemma_symbols(n[i]);
    }
}

#[verifier::rlimit(30)]
proof fn lemma_symbols(c: char)
    ensures
        is_code_symbol(c) <==> ('1' <= c <= '9' || 'A' <= c <= 'Z') && c != 'I' && c != 'L' && c != 'O',
{
    reveal_strlit("23456789ABCDEFGHJKMNPQRSTUVWXYZ");
    let a = CODE_ALPHABET@;
    assert(a.len() == 31);
    if ('1' <= c <= '9' || 'A' <= c <= 'Z') && c != 'I' && c != 'L' && c != 'O' && c != '1' {
        let k: int = if '2' <= c <= '9' {
            c as int - '2' as int
        } else if 'A' <= c <= 'H' {
            8 + c as int - 'A' as int
        } else if c == 'J' || c == 'K' {
            16 + c as int - 'J' as int
        } else if c == 'M' || c == 'N' {
            18 + c as int - 'M' as int
        } else {
            20 + c as int - 'P' as int
        };
        assert(a[k] == c);
    }
}

/// Different draws give different codes: a code shows, of every byte that was chosen, what is left of it
/// on division by the number of symbols.
#[verifier::rlimit(30)]
pub proof fn law_codes_show_the_draw(a: Seq<u8>, b: Seq<u8>)
    ensures
        code_of(a).len() == a.len(),
        code_of(a) == code_of(b) <==> a.len() == b.len() && forall|i: int|
            0 <= i < a.len() ==> #[trigger] a[i] as int % 31 == b[i] as int % 31,
{
    reveal_strlit("23456789ABCDEFGHJKMNPQRSTUVWXYZ");
    let s = CODE_ALPHABET@;
    assert(forall|j: int, k: int|
        0 <= j < 31 && 0 <= k < 31 && #[trigger] s[j] == #[trigger] s[k] ==> j == k);
    if code_of(a) == code_of(b) {
        assert(code_of(a).len() == a.len() && code_of(b).len() == b.len());
        assert forall|i: int| 0 <= i < a.len() implies #[trigger] a[i] as int % 31 == b[i] as int % 31 by {
            assert(code_of(a)[i] == code_of(b)[i]);
            assert(s[a[i] as int % 31] == s[b[i] as int % 31]);
        }
    }
    if a.len() == b.len() && forall|i: int|
        0 <= i < a.len() ==> #[trigger] a[i] as int % 31 == b[i] as int % 31 {
        assert(code_of(a) =~= code_of(b));
    }
}

/// An exchange that succeeds gives the key that it derived, whole; one that fails gives its error.
pub proof fn law_exchanges_give_their_key(
    r: Result<[u8; 32], CryptoError>,
    o: Result<Seq<u8>, PakeFault>,
)
    requires
        finished(r, o),
    ensures
        r is Ok <==> o is Ok,
        r is Ok ==> r->Ok_0@ == o->Ok_0,
        r is Err ==> r->Err_0 is InvalidKey,
{
}

/// The two ends of an exchange go by different names.
pub proof fn law_the_ends_of_an_exchange_differ()
    ensures
        id_a_bytes() == vstd::utf8::encode_utf8("clipsync-initiator"@),
        id_b_bytes() == vstd::utf8::encode_utf8("clipsync-responder"@),
        id_a_bytes() != id_b_bytes(),
{
    reveal_strlit("clipsync-initiator");
    reveal_strlit("clipsync-responder");
    assert("clipsync-initiator"@[9] == 'i' && "clipsync-responder"@[9] == 'r');
    if id_a_bytes() == id_b_bytes() {
        text::lemma_utf8_injective("clipsync-initiator"@, "clipsync-responder"@);
    }
}

/// Of a draw the bytes below 248 are taken, in their order, until there are twelve.
pub proof fn law_even_bytes_are_taken_in_order(drawn: Seq<u8>, b: u8)
    ensures
        even_bytes(seq![]) == Seq::<u8>::empty(),
        b < 248 ==> even_bytes(drawn.push(b)) == even_bytes(drawn).push(b),
        b >= 248 ==> even_bytes(drawn.push(b)) == even_bytes(drawn),
        even_bytes(drawn).len() >= 12 ==> chosen_bytes(drawn) == even_bytes(drawn).take(12),
{
    assert(drawn.push(b).drop_last() =~= drawn);
    if even_bytes(drawn).len() >= 12 {
        assert(chosen_bytes(drawn) =~= even_bytes(drawn).take(12));
    }
}

} // verus!
