//! Process ids (`p1`, `p2`, ...) handed out within a daemon's lifetime, and
//! the check of a session's PID file.

use vstd::prelude::*;
use crate::text::{chars_of, decimal, digit_char, push_decimal, parse_u64, parse_u64_spec, all_digits, digits_value};

verus! {

/// The id handed out as the `n`th, counting from 1: `p<n>`.
pub open spec fn process_id(n: nat) -> Seq<char> {
    seq!['p'] + decimal(n)
}

/// Hands out the process ids `p1`, `p2`, ... in turn.
pub struct IdCounter {
    next_id: u32,
}

impl IdCounter {
    /// The number in the id handed out next.
    pub closed spec fn upcoming(&self) -> nat {
        self.next_id as nat
    }

    /// A counter whose first id is `p1`.
    pub fn new() -> (r: IdCounter)
        ensures
            r.upcoming() == 1,
    {
        IdCounter { next_id: 1 }
    }

    /// Whether another id can be handed out.
    pub fn has_next(&self) -> (r: bool)
        ensures
            r == (self.upcoming() < u32::MAX),
    {
        self.next_id < u32::MAX
    }

    /// Hands out the next id.
    pub fn next_id(&mut self) -> (r: String)
        requires
            old(self).upcoming() < u32::MAX,
        ensures
            r@ == process_id(old(self).upcoming()),
            final(self).upcoming() == old(self).upcoming() + 1,
    {
        let mut id = String::new();
        id.append("p");
        proof {
            reveal_strlit("p");
        }
        push_decimal(&mut id, self.next_id as u64);
        assert(id@ =~= process_id(self.next_id as nat));
        self.next_id = self.next_id + 1;
        id
    }

    /// Hands out the next id (the same as [`IdCounter::next_id`]).
    pub fn next(&mut self) -> (r: String)
        requires
            old(self).upcoming() < u32::MAX,
        ensures
            r@ == process_id(old(self).upcoming()),
            final(self).upcoming() == old(self).upcoming() + 1,
    {
        self.next_id()
    }
}

impl Default for IdCounter {
    fn default() -> (r: IdCounter)
        ensures
            r.upcoming() == 1,
    {
        IdCounter::new()
    }
}

/// Ids handed out by one counter never repeat: the ids of two different
/// counts differ.
pub proof fn lemma_process_ids_distinct(a: nat, b: nat)
    requires
        a != b,
    ensures
        process_id(a) != process_id(b),
{
    lemma_decimal_injective(a, b);
    if process_id(a) == process_id(b) {
        assert(decimal(a) =~= process_id(a).drop_first());
        assert(decimal(b) =~= process_id(b).drop_first());
    }
}

proof fn lemma_decimal_injective(a: nat, b: nat)
    requires
        a != b,
    ensures
        decimal(a) != decimal(b),
    decreases a + b,
{
    if a < 10 && b < 10 {
        lemma_digit_char_injective(a, b);
        assert(decimal(a)[0] != decimal(b)[0]);
    } else if a < 10 {
        assert(decimal(a).len() == 1);
        crate::text::lemma_decimal_len_ge2(b);
    } else if b < 10 {
        assert(decimal(b).len() == 1);
        crate::text::lemma_decimal_len_ge2(a);
    } else if a / 10 != b / 10 {
        lemma_decimal_injective(a / 10, b / 10);
        assert(decimal(a).drop_last() =~= decimal(a / 10));
        assert(decimal(b).drop_last() =~= decimal(b / 10));
        if decimal(a) == decimal(b) {
            assert(decimal(a).drop_last() == decimal(b).drop_last());
        }
    } else {
        assert(a % 10 != b % 10) by {
            assert(a == (a / 10) * 10 + a % 10);
            assert(b == (b / 10) * 10 + b % 10);
        }
        assert(decimal(a).last() == digit_char((a % 10) as nat));
        assert(decimal(b).last() == digit_char((b % 10) as nat));
        lemma_digit_char_injective((a % 10) as nat, (b % 10) as nat);
    }
}

proof fn lemma_digit_char_injective(a: nat, b: nat)
    requires
        a < 10,
        b < 10,
        a != b,
    ensures
        crate::text::digit_char(a) != crate::text::digit_char(b),
{
}

/// The characters `char::is_whitespace` holds of (Unicode `White_Space`).
pub open spec fn is_whitespace(c: char) -> bool {
    ||| c == ' ' || c == '\t' || c == '\n' || c == '\r'
    ||| c == '\u{0B}' || c == '\u{0C}' || c == '\u{85}' || c == '\u{A0}' || c == '\u{1680}'
    ||| ('\u{2000}' <= c && c <= '\u{200A}')
    ||| c == '\u{2028}' || c == '\u{2029}' || c == '\u{202F}' || c == '\u{205F}' || c == '\u{3000}'
}

/// `s` without leading and trailing whitespace, as `str::trim`.
pub open spec fn trim_spec(s: Seq<char>) -> Seq<char> {
    if exists|i: int| 0 <= i < s.len() && !is_whitespace(s[i]) {
        let a = choose|a: int| 0 <= a < s.len() && !is_whitespace(s[a]) && forall|j: int| 0 <= j < a ==> is_whitespace(s[j]);
        let b = choose|b: int| 0 <= b < s.len() && !is_whitespace(s[b]) && forall|j: int| b < j < s.len() ==> is_whitespace(s[j]);
        s.subrange(a, b + 1)
    } else {
        Seq::empty()
    }
}

fn is_ws(c: char) -> (r: bool)
    ensures
        r == is_whitespace(c),
{
    c == ' ' || c == '\t' || c == '\n' || c == '\r' || c == '\u{0B}' || c == '\u{0C}' || c == '\u{85}'
        || c == '\u{A0}' || c == '\u{1680}' || ('\u{2000}' <= c && c <= '\u{200A}') || c == '\u{2028}'
        || c == '\u{2029}' || c == '\u{202F}' || c == '\u{205F}' || c == '\u{3000}'
}

/// `s` without leading and trailing whitespace.
pub fn trim_chars(s: &[char]) -> (r: Vec<char>)
    ensures
        r@ == trim_spec(s@),
{
    let mut a: usize = 0;
    while a < s.len() && is_ws(s[a])
        invariant
            a <= s@.len(),
            forall|j: int| 0 <= j < a ==> is_whitespace(s@[j]),
        decreases s.len() - a,
    {
        a = a + 1;
    }
    if a == s.len() {
        assert(!(exists|i: int| 0 <= i < s@.len() && !is_whitespace(s@[i])));
        return Vec::new();
    }
    let mut b: usize = s.len() - 1;
    while is_ws(s[b])
        invariant
            a <= b < s@.len(),
            !is_whitespace(s@[a as int]),
            forall|j: int| b < j < s@.len() ==> is_whitespace(s@[j]),
        decreases b,
    {
        b = b - 1;
    }
    let ghost ca = choose|x: int| 0 <= x < s@.len() && !is_whitespace(s@[x]) && forall|j: int| 0 <= j < x ==> is_whitespace(s@[j]);
    let ghost cb = choose|x: int| 0 <= x < s@.len() && !is_whitespace(s@[x]) && forall|j: int| x < j < s@.len() ==> is_whitespace(s@[j]);
    proof {
        assert(0 <= a < s@.len() && !is_whitespace(s@[a as int]) && forall|j: int| 0 <= j < a ==> is_whitespace(s@[j]));
        assert(0 <= b < s@.len() && !is_whitespace(s@[b as int]) && forall|j: int| b < j < s@.len() ==> is_whitespace(s@[j]));
        if ca < a {
            assert(is_whitespace(s@[ca]));
        }
        if ca > a {
            assert(is_whitespace(s@[a as int]));
        }
        if cb < b {
            assert(is_whitespace(s@[b as int]));
        }
        if cb > b {
            assert(is_whitespace(s@[cb]));
        }
    }
    let mut out: Vec<char> = Vec::new();
    let mut i = a;
    while i <= b
        invariant
            a <= i <= b + 1,
            b < s@.len(),
            out@ == s@.subrange(a as int, i as int),
        decreases b + 1 - i,
    {
        out.push(s[i]);
        assert(s@.subrange(a as int, i + 1) =~= s@.subrange(a as int, i as int).push(s@[i as int]));
        i = i + 1;
    }
    out
}

/// What `str::parse::<i32>` gives back: an optional sign followed by at
/// least one decimal digit, whose value fits in an `i32`.
pub open spec fn parse_i32_spec(s: Seq<char>) -> Option<i32> {
    if s.len() > 0 && s[0] == '-' {
        let d = s.drop_first();
        if d.len() > 0 && all_digits(d) && digits_value(d) <= 0x8000_0000 {
            Some((0 - digits_value(d)) as i32)
        } else {
            None
        }
    } else {
        match parse_u64_spec(s) {
            Some(v) => if v <= i32::MAX { Some(v as i32) } else { None },
            None => None,
        }
    }
}

/// Parses a decimal `i32` with an optional sign.
pub fn parse_i32(s: &[char]) -> (r: Option<i32>)
    ensures
        r == parse_i32_spec(s@),
{
    if s.len() > 0 && s[0] == '-' {
        let rest = crate::text::slice_suffix(s, 1);
        assert(rest@ =~= s@.drop_first());
        if rest.len() > 0 && rest[0] == '+' {
            assert(!crate::text::is_digit(rest@[0]));
            return None;
        }
        match parse_u64(rest.as_slice()) {
            Some(v) => {
                if v <= 0x8000_0000 {
                    Some((0 - (v as i64)) as i32)
                } else {
                    None
                }
            },
            None => None,
        }
    } else {
        match parse_u64(s) {
            Some(v) => if v <= 0x7fff_ffff { Some(v as i32) } else { None },
            None => None,
        }
    }
}

/// The PID written in a PID file: its text without surrounding
/// whitespace, read as an `i32`.
pub fn pid_from_file_text(content: &str) -> (r: Option<i32>)
    ensures
        r == parse_i32_spec(trim_spec(content@)),
{
    let cs = chars_of(content);
    let t = trim_chars(cs.as_slice());
    parse_i32(t.as_slice())
}

/// Whether a signal can be sent to the process `pid`: whether
/// `nix::sys::signal::kill` with no signal succeeds. Nothing is claimed of
/// the answer: it depends on the processes running on the machine.
#[verifier::external_body]
fn signal_reaches(pid: i32) -> (r: bool) {
    nix::sys::signal::kill(nix::unistd::Pid::from_raw(pid), None).is_ok()
}

/// Whether the daemon whose PID file holds `content` is alive: the text
/// holds a PID and a signal reaches that process. Text without a PID means
/// no daemon.
pub fn daemon_alive_from_pid_text(content: &str) -> (r: bool)
    ensures
        parse_i32_spec(trim_spec(content@)) is None ==> !r,
{
    match pid_from_file_text(content) {
        Some(pid) => signal_reaches(pid),
        None => false,
    }
}

} // verus!
