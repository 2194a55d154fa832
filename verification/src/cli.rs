//! What the command line and the replay input hand in: process id lists,
//! process ids, base addresses and hex page data, and the decisions of the
//! live scanning loop.

use vstd::prelude::*;
use crate::text::{
    all_digits, digit_of, eq_ignore_ascii_case, eq_ignore_ascii_case_text, is_ascii_space,
    is_ascii_space_char, parse_u32_text, parse_u64_radix, parse_unsigned, push_char, push_text,
    same_text, split_on, split_text, text_of, trim, trim_text,
};

verus! {

// ---------------------------------------------------------------------------
// Process ids
// ---------------------------------------------------------------------------

/// Why a process id was refused.
#[derive(Clone, Debug)]
pub enum PidError {
    /// The text is empty once trimmed.
    Empty,
    /// The text, trimmed, is not a `u32`.
    Invalid(String),
    /// A number that does not fit a `u32`.
    OutOfRange(u64),
}

/// A refused process id, with its text as a character sequence.
pub enum PidFault {
    Empty,
    Invalid(Seq<char>),
    OutOfRange(u64),
}

impl View for PidError {
    type V = PidFault;

    open spec fn view(&self) -> PidFault {
        match self {
            PidError::Empty => PidFault::Empty,
            PidError::Invalid(s) => PidFault::Invalid(s@),
            PidError::OutOfRange(n) => PidFault::OutOfRange(*n),
        }
    }
}

/// What a refused process id reads as.
pub open spec fn pid_fault_message(f: PidFault) -> Seq<char> {
    match f {
        PidFault::Empty => "PID is empty"@,
        PidFault::Invalid(s) => "invalid PID `"@ + s + "`"@,
        PidFault::OutOfRange(n) => "replay PID "@ + crate::text::dec(n as nat)
            + " is outside the u32 range"@,
    }
}

impl PidError {
    /// The refusal as text.
    pub fn message(&self) -> (r: String)
        ensures
            r@ == pid_fault_message(self@),
    {
        match self {
            PidError::Empty => text_of("PID is empty"),
            PidError::Invalid(s) => {
                let mut r = text_of("invalid PID `");
                push_text(&mut r, s.as_str());
                push_text(&mut r, "`");
                r
            },
            PidError::OutOfRange(n) => {
                let mut r = text_of("replay PID ");
                crate::text::push_dec(&mut r, *n);
                push_text(&mut r, " is outside the u32 range");
                r
            },
        }
    }
}

/// The process ids of the comma separated `pieces`: each piece is trimmed,
/// empty pieces are skipped, and the first piece that is not a `u32` is the
/// refusal.
pub open spec fn pid_list(pieces: Seq<Seq<char>>) -> Result<Seq<u32>, Seq<char>>
    decreases pieces.len(),
{
    if pieces.len() == 0 {
        Ok(Seq::empty())
    } else {
        match pid_list(pieces.drop_last()) {
            Err(t) => Err(t),
            Ok(before) => {
                let v = trim(pieces.last());
                if v.len() == 0 {
                    Ok(before)
                } else {
                    match parse_unsigned(v, 10, u32::MAX as nat) {
                        Some(p) => Ok(before.push(p as u32)),
                        None => Err(v),
                    }
                }
            },
        }
    }
}

/// The process ids that `s` names: none for empty text, this process for
/// `self` (in any ASCII case), else the comma separated list.
pub open spec fn pids_named(s: Seq<char>, self_pid: u32) -> Result<Seq<u32>, Seq<char>> {
    if trim(s).len() == 0 {
        Ok(Seq::empty())
    } else if eq_ignore_ascii_case(trim(s), "self"@) {
        Ok(seq![self_pid])
    } else {
        pid_list(split_on(s, ','))
    }
}

/// The process ids of `--pids`: empty text names none, `self` names this
/// process (`self_pid`), otherwise a comma separated list of ids.
pub fn parse_pids(s: &str, self_pid: u32) -> (r: Result<Vec<u32>, PidError>)
    ensures
        match r {
            Ok(v) => pids_named(s@, self_pid) == Ok::<Seq<u32>, Seq<char>>(v@),
            Err(e) => pids_named(s@, self_pid) matches Err(t) && e@ == PidFault::Invalid(t),
        },
{
    let t = trim_text(s);
    if t.unicode_len() == 0 {
        return Ok(Vec::new());
    }
    if eq_ignore_ascii_case_text(t, "self") {
        let mut v: Vec<u32> = Vec::new();
        v.push(self_pid);
        return Ok(v);
    }
    let pieces = split_text(s, ',');
    let ghost all = split_on(s@, ',');
    let mut pids: Vec<u32> = Vec::new();
    let mut k: usize = 0;
    assert(all.take(0) =~= Seq::<Seq<char>>::empty());
    while k < pieces.len()
        invariant
            k <= pieces.len(),
            pieces.len() == all.len(),
            all == split_on(s@, ','),
            trim(s@).len() != 0,
            !eq_ignore_ascii_case(trim(s@), "self"@),
            forall|q: int| 0 <= q < pieces.len() ==> #[trigger] pieces[q]@ == all[q],
            pid_list(all.take(k as int)) == Ok::<Seq<u32>, Seq<char>>(pids@),
        decreases pieces.len() - k,
    {
        assert(all.take(k + 1).drop_last() =~= all.take(k as int));
        let value = trim_text(pieces[k]);
        if value.unicode_len() > 0 {
            match parse_u32_text(value) {
                Some(p) => {
                    pids.push(p);
                },
                None => {
                    proof {
                        assert(all.take(k + 1).last() == all[k as int]);
                        assert(pid_list(all.take(k + 1)) == Err::<Seq<u32>, Seq<char>>(value@));
                        lemma_pid_list_err_sticks(all, k as int + 1);
                    }
                    return Err(PidError::Invalid(text_of(value)));
                },
            }
        }
        k = k + 1;
    }
    assert(all.take(pieces.len() as int) =~= all);
    Ok(pids)
}

proof fn lemma_pid_list_err_sticks(pieces: Seq<Seq<char>>, k: int)
    requires
        0 <= k <= pieces.len(),
        pid_list(pieces.take(k)) is Err,
    ensures
        pid_list(pieces) == pid_list(pieces.take(k)),
    decreases pieces.len() - k,
{
    if k < pieces.len() {
        assert(pieces.take(k + 1).drop_last() =~= pieces.take(k));
        lemma_pid_list_err_sticks(pieces, k + 1);
    } else {
        assert(pieces.take(k) =~= pieces);
    }
}

/// The process id that `value` names once trimmed.
pub open spec fn pid_of_text(value: Seq<char>) -> Result<u32, PidFault> {
    let t = trim(value);
    if t.len() == 0 {
        Err(PidFault::Empty)
    } else {
        match parse_unsigned(t, 10, u32::MAX as nat) {
            Some(p) => Ok(p as u32),
            None => Err(PidFault::Invalid(t)),
        }
    }
}

/// A process id written as text.
pub fn parse_pid_text(value: &str) -> (r: Result<u32, PidError>)
    ensures
        match r {
            Ok(p) => pid_of_text(value@) == Ok::<u32, PidFault>(p),
            Err(e) => pid_of_text(value@) == Err::<u32, PidFault>(e@),
        },
{
    let t = trim_text(value);
    if t.unicode_len() == 0 {
        return Err(PidError::Empty);
    }
    match parse_u32_text(t) {
        Some(p) => Ok(p),
        None => Err(PidError::Invalid(text_of(t))),
    }
}

/// The process id of a replay file: text or a number.
#[derive(Clone, Debug)]
pub enum ReplayPid {
    Text(String),
    Number(u64),
}

/// The process a replay file names: `self` (trimmed, any ASCII case) is
/// this process, other text is a process id, a number must fit a `u32`.
pub open spec fn replay_pid_of(pid: ReplayPid, self_pid: u32) -> Result<u32, PidFault> {
    match pid {
        ReplayPid::Text(v) => if eq_ignore_ascii_case(trim(v@), "self"@) {
            Ok(self_pid)
        } else {
            pid_of_text(v@)
        },
        ReplayPid::Number(n) => if n <= u32::MAX {
            Ok(n as u32)
        } else {
            Err(PidFault::OutOfRange(n))
        },
    }
}

/// The process that a replay file names, `self_pid` standing for `self`.
pub fn resolve_replay_pid(pid: ReplayPid, self_pid: u32) -> (r: Result<u32, PidError>)
    ensures
        match r {
            Ok(p) => replay_pid_of(pid, self_pid) == Ok::<u32, PidFault>(p),
            Err(e) => replay_pid_of(pid, self_pid) == Err::<u32, PidFault>(e@),
        },
{
    match pid {
        ReplayPid::Text(v) => {
            if eq_ignore_ascii_case_text(trim_text(v.as_str()), "self") {
                Ok(self_pid)
            } else {
                parse_pid_text(v.as_str())
            }
        },
        ReplayPid::Number(n) => {
            if n <= u32::MAX as u64 {
                Ok(n as u32)
            } else {
                Err(PidError::OutOfRange(n))
            }
        },
    }
}

// ---------------------------------------------------------------------------
// Base addresses
// ---------------------------------------------------------------------------

/// Why a base address was refused.
#[derive(Clone, Debug)]
pub enum BaseError {
    /// The text is empty once trimmed.
    Empty,
    /// `0x` or `0X` followed by something that is not a hex `u64`; the
    /// trimmed text.
    InvalidHex(String),
    /// Not a decimal `u64`; the trimmed text.
    Invalid(String),
}

/// A refused base address, with its text as a character sequence.
pub enum BaseFault {
    Empty,
    InvalidHex(Seq<char>),
    Invalid(Seq<char>),
}

impl View for BaseError {
    type V = BaseFault;

    open spec fn view(&self) -> BaseFault {
        match self {
            BaseError::Empty => BaseFault::Empty,
            BaseError::InvalidHex(s) => BaseFault::InvalidHex(s@),
            BaseError::Invalid(s) => BaseFault::Invalid(s@),
        }
    }
}

/// What a refused base address reads as.
pub open spec fn base_fault_message(f: BaseFault) -> Seq<char> {
    match f {
        BaseFault::Empty => "base address is empty"@,
        BaseFault::InvalidHex(s) => "invalid hex base address `"@ + s + "`"@,
        BaseFault::Invalid(s) => "invalid base address `"@ + s + "`"@,
    }
}

impl BaseError {
    /// The refusal as text.
    pub fn message(&self) -> (r: String)
        ensures
            r@ == base_fault_message(self@),
    {
        match self {
            BaseError::Empty => text_of("base address is empty"),
            BaseError::InvalidHex(s) => {
                let mut r = text_of("invalid hex base address `");
                push_text(&mut r, s.as_str());
                push_text(&mut r, "`");
                r
            },
            BaseError::Invalid(s) => {
                let mut r = text_of("invalid base address `");
                push_text(&mut r, s.as_str());
                push_text(&mut r, "`");
                r
            },
        }
    }
}

/// `t` starts with `0x` or `0X`.
pub open spec fn has_hex_prefix(t: Seq<char>) -> bool {
    t.len() >= 2 && t[0] == '0' && (t[1] == 'x' || t[1] == 'X')
}

/// The address that `value` writes once trimmed: hexadecimal after `0x` or
/// `0X`, decimal otherwise.
pub open spec fn base_of(value: Seq<char>) -> Result<u64, BaseFault> {
    let t = trim(value);
    if t.len() == 0 {
        Err(BaseFault::Empty)
    } else if has_hex_prefix(t) {
        match parse_unsigned(t.skip(2), 16, u64::MAX as nat) {
            Some(v) => Ok(v as u64),
            None => Err(BaseFault::InvalidHex(t)),
        }
    } else {
        match parse_unsigned(t, 10, u64::MAX as nat) {
            Some(v) => Ok(v as u64),
            None => Err(BaseFault::Invalid(t)),
        }
    }
}

/// A page base address of a replay file.
pub fn parse_base(value: &str) -> (r: Result<u64, BaseError>)
    ensures
        match r {
            Ok(b) => base_of(value@) == Ok::<u64, BaseFault>(b),
            Err(e) => base_of(value@) == Err::<u64, BaseFault>(e@),
        },
{
    let t = trim_text(value);
    let n = t.unicode_len();
    if n == 0 {
        return Err(BaseError::Empty);
    }
    if n >= 2 && t.get_char(0) == '0' && (t.get_char(1) == 'x' || t.get_char(1) == 'X') {
        let digits = t.substring_char(2, n);
        assert(digits@ =~= t@.skip(2));
        return match parse_u64_radix(digits, 16) {
            Some(v) => Ok(v),
            None => Err(BaseError::InvalidHex(text_of(t))),
        };
    }
    match parse_u64_radix(t, 10) {
        Some(v) => Ok(v),
        None => Err(BaseError::Invalid(text_of(t))),
    }
}

// ---------------------------------------------------------------------------
// Hex page data
// ---------------------------------------------------------------------------

/// `s` without its ASCII white space.
pub open spec fn without_ascii_space(s: Seq<char>) -> Seq<char>
    decreases s.len(),
{
    if s.len() == 0 {
        s
    } else if is_ascii_space(s.last()) {
        without_ascii_space(s.drop_last())
    } else {
        without_ascii_space(s.drop_last()).push(s.last())
    }
}

/// `s` is an even number of hex digits (either case).
pub open spec fn is_hex_text(s: Seq<char>) -> bool {
    s.len() % 2 == 0 && all_digits(s, 16)
}

/// The value of a hex digit.
pub open spec fn nibble(c: char) -> nat {
    match digit_of(c, 16) {
        Some(v) => v,
        None => 0,
    }
}

/// The bytes that hex text writes, two digits a byte, high digit first.
pub open spec fn hex_bytes(s: Seq<char>) -> Seq<u8> {
    Seq::new(s.len() / 2, |i: int| (nibble(s[2 * i]) * 16 + nibble(s[2 * i + 1])) as u8)
}

/// `hex::decode`: for an even number of hex digits (either case) the bytes
/// they write, two digits a byte; for any other text an error, here `None`.
#[verifier::external_body]
fn hex_decode(text: &str) -> (r: Option<Vec<u8>>)
    ensures
        r is Some <==> is_hex_text(text@),
        r matches Some(v) ==> v@ == hex_bytes(text@),
{
    hex::decode(text).ok()
}

/// The bytes of a replay page written in hex, ASCII white space ignored;
/// `None` when the rest is not an even number of hex digits.
pub fn decode_hex_page(value: &str) -> (r: Option<Vec<u8>>)
    ensures
        r is Some <==> is_hex_text(without_ascii_space(value@)),
        r matches Some(v) ==> v@ == hex_bytes(without_ascii_space(value@)),
{
    let n = value.unicode_len();
    let mut compact = String::new();
    let mut i: usize = 0;
    assert(value@.take(0) =~= Seq::<char>::empty());
    while i < n
        invariant
            i <= n,
            n == value@.len(),
            compact@ == without_ascii_space(value@.take(i as int)),
        decreases n - i,
    {
        let c = value.get_char(i);
        assert(value@.take(i + 1).drop_last() =~= value@.take(i as int));
        if !is_ascii_space_char(c) {
            push_char(&mut compact, c);
        }
        i = i + 1;
    }
    assert(value@.take(n as int) =~= value@);
    hex_decode(compact.as_str())
}

// ---------------------------------------------------------------------------
// The live scanning loop
// ---------------------------------------------------------------------------

/// Another pass follows unless one pass was asked for (`duration_s` zero)
/// or `duration_s` seconds have passed.
pub fn keep_running(duration_s: u64, elapsed_s: u64) -> (more: bool)
    ensures
        more == (duration_s != 0 && elapsed_s < duration_s),
{
    if duration_s == 0 {
        return false;
    }
    elapsed_s < duration_s
}

/// Findings are quarantined when `--enforce` was given or the configured
/// mode is exactly `enforce`.
pub fn quarantine_enabled(enforce: bool, mode: &str) -> (q: bool)
    ensures
        q == (enforce || mode@ == "enforce"@),
{
    enforce || same_text(mode, "enforce")
}

} // verus!

verus! {

/// A process id written in decimal reads back as itself.
pub proof fn lemma_pid_text_round_trip(p: u32)
    ensures
        pid_of_text(crate::text::dec(p as nat)) == Ok::<u32, PidFault>(p),
{
    crate::text::lemma_dec_parses_back(p as nat, u32::MAX as nat);
}

/// `s` is all white space.
pub open spec fn all_space(s: Seq<char>) -> bool {
    forall|i: int| 0 <= i < s.len() ==> crate::text::is_space(#[trigger] s[i])
}

/// A base address reads back as itself when written in decimal, or as `0x`
/// or `0X` followed by hexadecimal digits of either case, with any white
/// space before and after it.
pub proof fn lemma_base_round_trip(b: u64, pre: Seq<char>, post: Seq<char>)
    requires
        all_space(pre),
        all_space(post),
    ensures
        base_of(pre + crate::text::dec(b as nat) + post) == Ok::<u64, BaseFault>(b),
        base_of(pre + ("0x"@ + crate::text::hex(b as nat)) + post) == Ok::<u64, BaseFault>(b),
        base_of(pre + ("0x"@ + crate::text::hex_upper(b as nat)) + post) == Ok::<u64, BaseFault>(b),
        base_of(pre + ("0X"@ + crate::text::hex(b as nat)) + post) == Ok::<u64, BaseFault>(b),
        base_of(pre + ("0X"@ + crate::text::hex_upper(b as nat)) + post) == Ok::<u64, BaseFault>(b),
{
    lemma_decimal_base(b, pre, post);
    crate::text::lemma_hex_parses_back(b as nat, u64::MAX as nat);
    lemma_prefixed_base(b, pre, post, "0x"@, crate::text::hex(b as nat));
    lemma_prefixed_base(b, pre, post, "0x"@, crate::text::hex_upper(b as nat));
    lemma_prefixed_base(b, pre, post, "0X"@, crate::text::hex(b as nat));
    lemma_prefixed_base(b, pre, post, "0X"@, crate::text::hex_upper(b as nat));
}

proof fn lemma_decimal_base(b: u64, pre: Seq<char>, post: Seq<char>)
    requires
        all_space(pre),
        all_space(post),
    ensures
        base_of(pre + crate::text::dec(b as nat) + post) == Ok::<u64, BaseFault>(b),
{
    let d = crate::text::dec(b as nat);
    crate::text::lemma_dec_parses_back(b as nat, u64::MAX as nat);
    assert(!crate::text::is_space(d[0]));
    assert(!crate::text::is_space(d.last()));
    crate::text::lemma_trim_padded(pre, d, post);
    if d.len() >= 2 {
        assert(digit_of(d[1], 10) is Some);
    }
}

proof fn lemma_prefixed_base(b: u64, pre: Seq<char>, post: Seq<char>, prefix: Seq<char>, h: Seq<char>)
    requires
        all_space(pre),
        all_space(post),
        prefix == "0x"@ || prefix == "0X"@,
        h.len() > 0,
        forall|i: int| 0 <= i < h.len() ==> !crate::text::is_space(#[trigger] h[i]),
        parse_unsigned(h, 16, u64::MAX as nat) == Some(b as nat),
    ensures
        base_of(pre + (prefix + h) + post) == Ok::<u64, BaseFault>(b),
{
    reveal_strlit("0x");
    reveal_strlit("0X");
    let t = prefix + h;
    assert(t[0] == '0');
    assert(t.last() == h.last());
    crate::text::lemma_trim_padded(pre, t, post);
    assert(t.skip(2) =~= h);
}

/// The empty text and a bare `0x` or `0X`, white space around them aside,
/// are refused as empty and as bad hex.
pub proof fn lemma_base_refusals(s: Seq<char>)
    ensures
        trim(s).len() == 0 ==> base_of(s) == Err::<u64, BaseFault>(BaseFault::Empty),
        trim(s) == "0x"@ || trim(s) == "0X"@ ==> base_of(s) == Err::<u64, BaseFault>(
            BaseFault::InvalidHex(trim(s)),
        ),
{
    reveal_strlit("0x");
    reveal_strlit("0X");
    assert(trim(s) == "0x"@ || trim(s) == "0X"@ ==> trim(s).skip(2) =~= Seq::<char>::empty());
}

/// `e` is a hex encoding of `bytes`: two hex digits of either case a byte,
/// the high one first.
pub open spec fn is_hex_encoding(e: Seq<char>, bytes: Seq<u8>) -> bool {
    &&& e.len() == 2 * bytes.len()
    &&& forall|i: int|
        0 <= i < bytes.len() ==> {
            &&& digit_of(e[2 * i], 16) == Some((#[trigger] bytes[i] / 16) as nat)
            &&& digit_of(e[2 * i + 1], 16) == Some((bytes[i] % 16) as nat)
        }
}

/// `hex::encode`: each byte as two lower-case hex digits, the high one first.
pub open spec fn hex_encode(bytes: Seq<u8>) -> Seq<char> {
    Seq::new(
        2 * bytes.len(),
        |j: int|
            if j % 2 == 0 {
                crate::text::digit_chars()[(bytes[j / 2] / 16) as int]
            } else {
                crate::text::digit_chars()[(bytes[j / 2] % 16) as int]
            },
    )
}

/// What `hex::encode` writes is a hex encoding of its bytes.
pub proof fn lemma_hex_encode_is_encoding(bytes: Seq<u8>)
    ensures
        is_hex_encoding(hex_encode(bytes), bytes),
{
    let e = hex_encode(bytes);
    assert forall|i: int| 0 <= i < bytes.len() implies {
        &&& digit_of(e[2 * i], 16) == Some((#[trigger] bytes[i] / 16) as nat)
        &&& digit_of(e[2 * i + 1], 16) == Some((bytes[i] % 16) as nat)
    } by {
        assert((2 * i) % 2 == 0 && (2 * i) / 2 == i);
        assert((2 * i + 1) % 2 == 1 && (2 * i + 1) / 2 == i);
        crate::text::lemma_digit_char((bytes[i] / 16) as nat, 16, false);
        crate::text::lemma_digit_char((bytes[i] % 16) as nat, 16, false);
    }
}

/// Replay page data reads back as the bytes it encodes, whatever the case of
/// its hex digits and wherever ASCII white space stands in it.
pub proof fn lemma_hex_page_round_trip(text: Seq<char>, e: Seq<char>, bytes: Seq<u8>)
    requires
        without_ascii_space(text) == e,
        is_hex_encoding(e, bytes),
    ensures
        is_hex_text(without_ascii_space(text)),
        hex_bytes(without_ascii_space(text)) == bytes,
{
    assert forall|j: int| 0 <= j < e.len() implies (#[trigger] digit_of(e[j], 16)) is Some by {
        let i = j / 2;
        assert(0 <= i < bytes.len());
        assert(j == 2 * i || j == 2 * i + 1);
        let x = bytes[i];
    }
    assert forall|i: int| 0 <= i < bytes.len() implies #[trigger] hex_bytes(e)[i] == bytes[i] by {
        let x = bytes[i];
        assert(nibble(e[2 * i]) == x / 16);
        assert(nibble(e[2 * i + 1]) == x % 16);
        assert((x / 16) * 16 + x % 16 == x);
    }
    assert(hex_bytes(e) =~= bytes);
}

} // verus!
