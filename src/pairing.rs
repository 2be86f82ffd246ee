//! Gateway pairing: one-time code, constant-time check, bearer tokens and a
//! brute-force lockout.

use vstd::prelude::*;
use vstd::string::StringSliceAdditionalSpecFns;
use crate::clock::{elapsed_secs, instant_now};
use crate::entropy::{is_lower_hex_char, random_hex32, random_u32};
use crate::text::{digit_char, digit_str, lemma_bytes_determine_text, text_eq};

verus! {

broadcast use vstd::seq_lib::seq_to_set_is_finite;

/// The byte at position `i` of `s`, or zero past its end.
pub open spec fn padded_byte(s: Seq<u8>, i: int) -> u8 {
    if 0 <= i < s.len() {
        s[i]
    } else {
        0u8
    }
}

/// Compares two strings in time that depends only on their lengths: every
/// position up to the longer length is visited, and the result says whether
/// they are equal.
pub fn constant_time_eq(a: &str, b: &str) -> (r: bool)
    ensures
        r == (a@ == b@),
        r == (a.spec_bytes() == b.spec_bytes()),
{
    let x = a.as_bytes();
    let y = b.as_bytes();
    let max_len: usize = if x.len() >= y.len() {
        x.len()
    } else {
        y.len()
    };
    let (xl, yl) = (x.len(), y.len());
    let len_diff: usize = xl ^ yl;
    proof {
        assert((xl ^ yl) == 0usize <==> xl == yl) by (bit_vector);
    }
    let mut diff: u8 = if len_diff == 0 {
        0
    } else {
        1
    };
    let mut i: usize = 0;
    let ghost mut steps: nat = 0;
    while i < max_len
        invariant
            steps == i,
            x@ == a.spec_bytes(),
            y@ == b.spec_bytes(),
            max_len == if x@.len() >= y@.len() { x@.len() } else { y@.len() },
            i <= max_len,
            diff == 0 <==> (x@.len() == y@.len() && forall|j: int|
                0 <= j < i ==> padded_byte(x@, j) == padded_byte(y@, j)),
        decreases max_len - i,
    {
        let p: u8 = if i < x.len() {
            x[i]
        } else {
            0
        };
        let q: u8 = if i < y.len() {
            y[i]
        } else {
            0
        };
        assert(p == padded_byte(x@, i as int));
        assert(q == padded_byte(y@, i as int));
        let ghost prev = diff;
        proof {
            assert((diff | (p ^ q)) == 0u8 <==> (diff == 0u8 && p == q)) by (bit_vector);
        }
        diff = diff | (p ^ q);
        i = i + 1;
        proof {
            steps = steps + 1;
        }
        proof {
            let all_eq = forall|j: int| 0 <= j < i ==> padded_byte(x@, j) == padded_byte(y@, j);
            if x@.len() == y@.len() && all_eq {
                assert(padded_byte(x@, i - 1) == padded_byte(y@, i - 1));
                assert(prev == 0);
            }
            if diff == 0 {
                assert forall|j: int| 0 <= j < i implies padded_byte(x@, j) == padded_byte(y@, j) by {
                    if j < i - 1 {
                    }
                }
            }
        }
    }
    // The loop has no early exit: it visits every position up to the longer
    // length, wherever the first difference lies.
    assert(steps == if x@.len() >= y@.len() { x@.len() } else { y@.len() });
    let r = diff == 0;
    proof {
        if r {
            assert forall|j: int| 0 <= j < x@.len() implies x@[j] == y@[j] by {
                assert(padded_byte(x@, j) == padded_byte(y@, j));
            }
            assert(x@ =~= y@);
            lemma_bytes_determine_text(a@, b@);
        } else if x@ == y@ {
            assert forall|j: int| 0 <= j < i implies padded_byte(x@, j) == padded_byte(y@, j) by {
            }
        }
    }
    r
}

/// Whether binding to `host` exposes the gateway beyond this machine: false
/// only for the loopback spellings.
pub open spec fn is_loopback_host(host: Seq<char>) -> bool {
    host == "127.0.0.1"@ || host == "localhost"@ || host == "::1"@ || host == "[::1]"@
        || host == "0:0:0:0:0:0:0:1"@
}

/// Returns false only for the loopback host spellings; callers use it to
/// decide whether pairing must be mandatory.
pub fn is_public_bind(host: &str) -> (r: bool)
    ensures
        r == !is_loopback_host(host@),
{
    !(text_eq(host, "127.0.0.1") || text_eq(host, "localhost") || text_eq(host, "::1")
        || text_eq(host, "[::1]") || text_eq(host, "0:0:0:0:0:0:0:1"))
}

/// Wrong codes in a row after which pairing is locked.
pub const MAX_PAIR_ATTEMPTS: u32 = 5;
/// Seconds for which a lockout lasts.
pub const PAIR_LOCKOUT_SECS: u64 = 300;
/// The number of distinct pairing codes.
pub const CODE_SPACE: u32 = 1000000;
/// Draws at or above this bound are rejected: below it every code has the
/// same number of draws (`floor(2^32 / CODE_SPACE) * CODE_SPACE`).
pub const CODE_DRAW_LIMIT: u32 = 4294000000;
/// The number of draws tried before a code is taken from the last one. All
/// of them are rejected with probability below 10^-230.
pub const MAX_CODE_DRAWS: u32 = 64;

/// The six-digit, zero-padded spelling of `n`.
pub open spec fn six_digits(n: nat) -> Seq<char> {
    seq![
        digit_char((n / 100000) % 10),
        digit_char((n / 10000) % 10),
        digit_char((n / 1000) % 10),
        digit_char((n / 100) % 10),
        digit_char((n / 10) % 10),
        digit_char(n % 10),
    ]
}

/// Writes `n` as six digits, with leading zeros.
pub fn six_digit_code(n: u32) -> (r: String)
    requires
        n < CODE_SPACE,
    ensures
        r@ == six_digits(n as nat),
{
    let n = n as u64;
    let mut s = String::from_str(digit_str((n / 100000) % 10));
    s.append(digit_str((n / 10000) % 10));
    s.append(digit_str((n / 1000) % 10));
    s.append(digit_str((n / 100) % 10));
    s.append(digit_str((n / 10) % 10));
    s.append(digit_str(n % 10));
    assert(s@ =~= six_digits(n as nat));
    s
}

/// The code that a 32-bit draw gives, or `None` for a draw that is rejected
/// so that every code is equally likely.
pub fn code_from_draw(raw: u32) -> (r: Option<String>)
    ensures
        raw < CODE_DRAW_LIMIT ==> r is Some && r.unwrap()@ == six_digits((raw % CODE_SPACE) as nat),
        raw >= CODE_DRAW_LIMIT ==> r is None,
{
    if raw < CODE_DRAW_LIMIT {
        Some(six_digit_code(raw % CODE_SPACE))
    } else {
        None
    }
}

/// The accepted draws that give code `c` are exactly `c + k * CODE_SPACE`
/// for `k < CODE_DRAW_LIMIT / CODE_SPACE`: each code has the same number of
/// them, so a uniform accepted draw gives a uniform code.
pub proof fn lemma_codes_equally_likely(c: nat)
    requires
        c < CODE_SPACE,
    ensures
        forall|k: nat| k < CODE_DRAW_LIMIT / CODE_SPACE ==> #[trigger] (c + k * CODE_SPACE) < CODE_DRAW_LIMIT
            && (c + k * CODE_SPACE) % (CODE_SPACE as int) == c,
        forall|raw: nat| raw < CODE_DRAW_LIMIT && #[trigger] (raw % (CODE_SPACE as nat)) == c ==> raw / (CODE_SPACE as nat) < CODE_DRAW_LIMIT / CODE_SPACE
            && raw == c + (raw / (CODE_SPACE as nat)) * CODE_SPACE,
{
    assert(CODE_DRAW_LIMIT / CODE_SPACE == 4294);
    assert forall|k: nat| k < CODE_DRAW_LIMIT / CODE_SPACE implies #[trigger] (c + k * CODE_SPACE) < CODE_DRAW_LIMIT
        && (c + k * CODE_SPACE) % (CODE_SPACE as int) == c by {
        assert(c + k * 1000000 < 4294000000) by (nonlinear_arith)
            requires
                c < 1000000,
                k < 4294,
        ;
        vstd::arithmetic::div_mod::lemma_mod_multiples_vanish(k as int, c as int, 1000000);
        vstd::arithmetic::div_mod::lemma_small_mod(c, 1000000);
    }
    assert forall|raw: nat| raw < CODE_DRAW_LIMIT && #[trigger] (raw % (CODE_SPACE as nat)) == c implies raw / (CODE_SPACE as nat) < CODE_DRAW_LIMIT / CODE_SPACE
        && raw == c + (raw / (CODE_SPACE as nat)) * CODE_SPACE by {
        vstd::arithmetic::div_mod::lemma_fundamental_div_mod(raw as int, 1000000);
        assert(raw / 1000000 < 4294) by (nonlinear_arith)
            requires
                raw < 4294000000,
        ;
    }
}

/// A fresh six-digit pairing code from operating-system randomness.
fn generate_code() -> (r: String)
    ensures
        exists|n: nat| n < CODE_SPACE && r@ == six_digits(n),
{
    let mut draws: u32 = 0;
    let mut raw: u32 = random_u32();
    while draws < MAX_CODE_DRAWS
        decreases MAX_CODE_DRAWS - draws,
    {
        match code_from_draw(raw) {
            Some(c) => {
                return c;
            },
            None => {},
        }
        raw = random_u32();
        draws = draws + 1;
    }
    six_digit_code(raw % CODE_SPACE)
}

/// A bearer token: `"bh_"` followed by 32 lowercase hex digits.
pub open spec fn is_token(t: Seq<char>) -> bool {
    &&& t.len() == 35
    &&& t.subrange(0, 3) == "bh_"@
    &&& forall|i: int| 3 <= i < 35 ==> is_lower_hex_char(#[trigger] t[i])
}

/// A fresh bearer token: `"bh_"` and 32 random lowercase hex digits.
fn generate_token() -> (r: String)
    ensures
        is_token(r@),
{
    let hex = random_hex32();
    let r = String::from_str("bh_").concat(hex.as_str());
    proof {
        reveal_strlit("bh_");
        assert(r@.subrange(0, 3) =~= "bh_"@);
        assert forall|i: int| 3 <= i < 35 implies is_lower_hex_char(#[trigger] r@[i]) by {
            assert(r@[i] == hex@[i - 3]);
        }
    }
    r
}

/// A text with the whitespace at both ends removed.
pub uninterp spec fn trim_of(s: Seq<char>) -> Seq<char>;

/// A code starts and ends with a digit, so trimming leaves it as it is.
pub proof fn lemma_code_is_trimmed(n: nat)
    requires
        n < CODE_SPACE,
    ensures
        six_digits(n).len() == 6,
        is_word_char(six_digits(n)[0]),
        is_word_char(six_digits(n).last()),
{
}

/// Whether `c` is an ASCII letter, digit or underscore: never whitespace.
pub open spec fn is_word_char(c: char) -> bool {
    ('0' <= c && c <= '9') || ('a' <= c && c <= 'z') || ('A' <= c && c <= 'Z') || c == '_'
}

/// Relies on std's `str::trim`: the result depends on the characters alone,
/// and a text that neither starts nor ends with whitespace (here: an empty
/// one, or one whose ends are ASCII letters, digits or underscores) is
/// returned as it is.
#[verifier::external_body]
fn trim_text<'a>(s: &'a str) -> (r: &'a str)
    ensures
        r@ == trim_of(s@),
        s@.len() == 0 ==> r@ == s@,
        s@.len() > 0 && is_word_char(s@[0]) && is_word_char(s@.last()) ==> r@ == s@,
{
    s.trim()
}

/// The seconds of lockout left after `failed` wrong codes, the lockout
/// having begun `elapsed` seconds ago (`None`: it never began).
pub open spec fn lockout_left(failed: u32, elapsed: Option<u64>) -> Option<u64> {
    match elapsed {
        Some(e) => if failed >= MAX_PAIR_ATTEMPTS && e < PAIR_LOCKOUT_SECS {
            Some((PAIR_LOCKOUT_SECS - e) as u64)
        } else {
            None
        },
        None => None,
    }
}

/// The seconds of lockout left, if pairing is locked.
pub fn lockout_remaining(failed: u32, elapsed: Option<u64>) -> (r: Option<u64>)
    ensures
        r == lockout_left(failed, elapsed),
{
    match elapsed {
        Some(e) => {
            if failed >= MAX_PAIR_ATTEMPTS && e < PAIR_LOCKOUT_SECS {
                Some(PAIR_LOCKOUT_SECS - e)
            } else {
                None
            }
        },
        None => None,
    }
}

/// Within a second of the lockout, the seconds left are `PAIR_LOCKOUT_SECS`
/// or one less.
pub proof fn lemma_lockout_window(failed: u32, elapsed: u64)
    requires
        failed >= MAX_PAIR_ATTEMPTS,
        elapsed <= 1,
    ensures
        lockout_left(failed, Some(elapsed)) matches Some(s) && PAIR_LOCKOUT_SECS - 1 <= s <= PAIR_LOCKOUT_SECS,
{
}

/// What a pairing guard holds: whether pairing is required, the one-time
/// code, the paired tokens, the count of wrong codes, and whether a lockout
/// was recorded.
pub struct PairingView {
    pub require_pairing: bool,
    pub code: Option<Seq<char>>,
    pub tokens: Set<Seq<char>>,
    pub failed: u32,
    pub locked: bool,
}

/// Gateway pairing state.
pub struct PairingGuard {
    require_pairing: bool,
    pairing_code: Option<String>,
    paired_tokens: Vec<String>,
    failed_attempts: u32,
    locked_at: Option<std::time::Instant>,
}

pub open spec fn token_views(v: Seq<String>) -> Seq<Seq<char>> {
    v.map_values(|t: String| t@)
}

impl View for PairingGuard {
    type V = PairingView;

    closed spec fn view(&self) -> PairingView {
        PairingView {
            require_pairing: self.require_pairing,
            code: match self.pairing_code { Some(c) => Some(c@), None => None },
            tokens: token_views(self.paired_tokens@).to_set(),
            failed: self.failed_attempts,
            locked: self.locked_at is Some,
        }
    }
}

fn contains_token(tokens: &Vec<String>, t: &str) -> (r: bool)
    ensures
        r == token_views(tokens@).to_set().contains(t@),
{
    let ghost views = token_views(tokens@);
    let mut i: usize = 0;
    while i < tokens.len()
        invariant
            i <= tokens@.len(),
            views == token_views(tokens@),
            forall|j: int| 0 <= j < i ==> views[j] != t@,
        decreases tokens@.len() - i,
    {
        if text_eq(tokens[i].as_str(), t) {
            assert(views[i as int] == t@);
            assert(views.contains(t@));
            return true;
        }
        i = i + 1;
    }
    proof {
        if views.contains(t@) {
            let j = choose|j: int| 0 <= j < views.len() && views[j] == t@;
            assert(views[j] != t@);
        }
    }
    false
}

fn add_token(tokens: &mut Vec<String>, t: String)
    ensures
        token_views(final(tokens)@).to_set() == token_views(old(tokens)@).to_set().insert(t@),
{
    let ghost before = token_views(tokens@);
    tokens.push(t);
    proof {
        let after = token_views(tokens@);
        assert(after =~= before.push(t@));
        before.lemma_push_to_set_commute(t@);
    }
}

impl PairingGuard {
    /// A guard holding the tokens already paired. A one-time code is issued
    /// exactly when pairing is required and no token exists yet.
    pub fn new(require_pairing: bool, existing_tokens: &[String]) -> (r: Self)
        ensures
            r@.require_pairing == require_pairing,
            r@.tokens == token_views(existing_tokens@).to_set(),
            r@.tokens.finite(),
            r@.code is Some <==> (require_pairing && existing_tokens@.len() == 0),
            r@.code matches Some(c) ==> exists|n: nat| n < CODE_SPACE && c == six_digits(n),
            r@.failed == 0,
            !r@.locked,
    {
        let mut tokens: Vec<String> = Vec::new();
        let mut i: usize = 0;
        assert(token_views(tokens@) =~= token_views(existing_tokens@.subrange(0, 0)));
        while i < existing_tokens.len()
            invariant
                i <= existing_tokens@.len(),
                token_views(tokens@) == token_views(existing_tokens@.subrange(0, i as int)),
                tokens@.len() == i,
            decreases existing_tokens@.len() - i,
        {
            let t = existing_tokens[i].clone();
            assert(t@ == existing_tokens@[i as int]@);
            let ghost prev = token_views(tokens@);
            tokens.push(t);
            assert(token_views(tokens@) =~= prev.push(t@));
            assert(existing_tokens@.subrange(0, i + 1) =~= existing_tokens@.subrange(0, i as int).push(existing_tokens@[i as int]));
            i = i + 1;
            assert(token_views(tokens@) =~= token_views(existing_tokens@.subrange(0, i as int)));
        }
        assert(existing_tokens@.subrange(0, i as int) =~= existing_tokens@);
        let code = if require_pairing && existing_tokens.len() == 0 {
            Some(generate_code())
        } else {
            None
        };
        PairingGuard {
            require_pairing,
            pairing_code: code,
            paired_tokens: tokens,
            failed_attempts: 0,
            locked_at: None,
        }
    }

    /// The one-time pairing code, if one was issued.
    pub fn pairing_code(&self) -> (r: Option<&str>)
        ensures
            match r {
                Some(c) => self@.code == Some(c@),
                None => self@.code is None,
            },
    {
        match &self.pairing_code {
            Some(c) => Some(c.as_str()),
            None => None,
        }
    }

    /// Whether requests must carry a paired token.
    pub fn require_pairing(&self) -> (r: bool)
        ensures
            r == self@.require_pairing,
    {
        self.require_pairing
    }

    /// Whether `token` may pass: always when pairing is not required, else
    /// when it is a paired token.
    pub fn is_authenticated(&self, token: &str) -> (r: bool)
        ensures
            r == (!self@.require_pairing || self@.tokens.contains(token@)),
    {
        if !self.require_pairing {
            return true;
        }
        contains_token(&self.paired_tokens, token)
    }

    /// Whether any token is paired.
    pub fn is_paired(&self) -> (r: bool)
        ensures
            r == (self@.tokens.len() > 0),
    {
        proof {
            let views = token_views(self.paired_tokens@);
            if views.len() > 0 {
                assert(views.to_set().contains(views[0]));
                vstd::set_lib::lemma_set_empty_equivalency_len(views.to_set());
            } else {
                assert(views.to_set() =~= Set::empty());
            }
        }
        self.paired_tokens.len() > 0
    }

    /// The paired tokens.
    pub fn tokens(&self) -> (r: Vec<String>)
        ensures
            token_views(r@).to_set() == self@.tokens,
    {
        let mut out: Vec<String> = Vec::new();
        let mut i: usize = 0;
        assert(token_views(out@) =~= token_views(self.paired_tokens@).subrange(0, 0));
        while i < self.paired_tokens.len()
            invariant
                i <= self.paired_tokens@.len(),
                token_views(out@) == token_views(self.paired_tokens@).subrange(0, i as int),
                out@.len() == i,
            decreases self.paired_tokens@.len() - i,
        {
            let t = self.paired_tokens[i].clone();
            assert(t@ == self.paired_tokens@[i as int]@);
            out.push(t);
            i = i + 1;
            assert(token_views(out@) =~= token_views(self.paired_tokens@).subrange(0, i as int));
        }
        assert(token_views(self.paired_tokens@).subrange(0, i as int) =~= token_views(self.paired_tokens@));
        out
    }

    /// Exchanges a pairing code for a bearer token.
    ///
    /// While locked out (`MAX_PAIR_ATTEMPTS` wrong codes, and a lockout
    /// begun less than `PAIR_LOCKOUT_SECS` ago) it fails with the seconds
    /// left and changes nothing. Otherwise a code equal to the issued one
    /// (both trimmed, compared in constant time) clears the count of wrong
    /// codes and yields a new paired token; any other code counts as wrong,
    /// and the count reaching `MAX_PAIR_ATTEMPTS` begins a lockout.
    pub fn try_pair(&mut self, code: &str) -> (r: Result<Option<String>, u64>)
        ensures
            final(self)@.tokens.finite(),
            (old(self)@.failed < MAX_PAIR_ATTEMPTS || !old(self)@.locked) ==> r is Ok,
            match r {
                Err(s) => {
                    &&& old(self)@.failed >= MAX_PAIR_ATTEMPTS && old(self)@.locked
                    &&& 1 <= s <= PAIR_LOCKOUT_SECS
                    &&& final(self)@ == old(self)@
                },
                Ok(t) => {
                    &&& final(self)@.require_pairing == old(self)@.require_pairing
                    &&& final(self)@.code == old(self)@.code
                    &&& (t is Some <==> (old(self)@.code matches Some(c) && trim_of(code@) == trim_of(c)))
                    &&& match t {
                        Some(tok) => {
                            &&& is_token(tok@)
                            &&& final(self)@.tokens == old(self)@.tokens.insert(tok@)
                            &&& final(self)@.failed == 0
                            &&& !final(self)@.locked
                        },
                        None => {
                            &&& final(self)@.tokens == old(self)@.tokens
                            &&& final(self)@.failed == if old(self)@.failed == u32::MAX { u32::MAX } else { (old(self)@.failed + 1) as u32 }
                            &&& final(self)@.locked == (old(self)@.locked || final(self)@.failed >= MAX_PAIR_ATTEMPTS)
                        },
                    }
                },
            },
    {
        let elapsed = match &self.locked_at {
            Some(t) => Some(elapsed_secs(t)),
            None => None,
        };
        match lockout_remaining(self.failed_attempts, elapsed) {
            Some(left) => {
                return Err(left);
            },
            None => {},
        }
        let matched = match &self.pairing_code {
            Some(expected) => constant_time_eq(trim_text(code), trim_text(expected.as_str())),
            None => false,
        };
        if matched {
            self.failed_attempts = 0;
            self.locked_at = None;
            let token = generate_token();
            add_token(&mut self.paired_tokens, token.clone());
            return Ok(Some(token));
        }
        self.failed_attempts = self.failed_attempts.saturating_add(1);
        if self.failed_attempts >= MAX_PAIR_ATTEMPTS {
            self.locked_at = Some(instant_now());
        }
        Ok(None)
    }
}

} // verus!
