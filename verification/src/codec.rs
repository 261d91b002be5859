//! The persisted form of an instance record: a JSON object with the
//! fields `id`, `name`, `ssh_port` and `pid`, pretty-printed with
//! two-space indentation. The encoder produces exactly this canonical
//! form; the decoder accepts it back, rejecting anything else as
//! corrupt. Encoding and decoding are proved to be mutual inverses.
use vstd::prelude::*;
use crate::record::{VmInfo, VmRecord};
use crate::text::{
    char_code, chars_to_string, dec_digits, digit_char, digit_val, is_digit,
    lemma_dec_digits_are_digits, push_dec_u32, push_str_chars, str_to_chars,
};

verus! {

/// The character for the hexadecimal digit `d`, lowercase.
pub open spec fn hex_char(d: int) -> char
    recommends
        0 <= d < 16,
{
    if d < 10 {
        digit_char(d)
    } else {
        ((0x61 + (d - 10)) as u8) as char
    }
}

/// Whether `c` is a hexadecimal digit, either case.
pub open spec fn is_hex(c: char) -> bool {
    is_digit(c) || 0x61 <= c as int <= 0x66 || 0x41 <= c as int <= 0x46
}

/// The value of the hexadecimal digit `c`.
pub open spec fn hex_val(c: char) -> int
    recommends
        is_hex(c),
{
    if is_digit(c) {
        digit_val(c)
    } else if 0x61 <= c as int <= 0x66 {
        c as int - 0x61 + 10
    } else {
        c as int - 0x41 + 10
    }
}

pub proof fn lemma_hex_char_val(d: int)
    requires
        0 <= d < 16,
    ensures
        is_hex(hex_char(d)),
        hex_val(hex_char(d)) == d,
{
}

/// The escape sequence a character is written as inside a JSON string:
/// itself when printable, a two-character escape for quote, backslash
/// and the named control characters, and `\u00XX` for the remaining
/// control characters.
pub open spec fn esc_char(c: char) -> Seq<char> {
    if c == '"' {
        seq!['\\', '"']
    } else if c == '\\' {
        seq!['\\', '\\']
    } else if c == '\u{8}' {
        seq!['\\', 'b']
    } else if c == '\u{c}' {
        seq!['\\', 'f']
    } else if c == '\n' {
        seq!['\\', 'n']
    } else if c == '\r' {
        seq!['\\', 'r']
    } else if c == '\t' {
        seq!['\\', 't']
    } else if (c as int) < 0x20 {
        seq!['\\', 'u', '0', '0', hex_char(c as int / 16), hex_char(c as int % 16)]
    } else {
        seq![c]
    }
}

/// The body of a JSON string: every character escaped, in order.
pub open spec fn json_escape(s: Seq<char>) -> Seq<char>
    decreases s.len(),
{
    if s.len() == 0 {
        Seq::empty()
    } else {
        esc_char(s[0]) + json_escape(s.drop_first())
    }
}

pub proof fn lemma_json_escape_push(s: Seq<char>, c: char)
    ensures
        json_escape(s.push(c)) == json_escape(s) + esc_char(c),
    decreases s.len(),
{
    if s.len() == 0 {
        assert(s.push(c)[0] == c);
        assert(s.push(c).drop_first() =~= Seq::<char>::empty());
        assert(s.push(c).drop_first() == Seq::<char>::empty());
        assert(json_escape(s.push(c)) == esc_char(c) + json_escape(Seq::<char>::empty()));
        assert(esc_char(c) + Seq::<char>::empty() =~= Seq::<char>::empty() + esc_char(c));
        assert(json_escape(s) == Seq::<char>::empty());
    } else {
        assert(s.push(c)[0] == s[0]);
        assert(s.push(c).drop_first() =~= s.drop_first().push(c));
        assert(s.push(c).drop_first() == s.drop_first().push(c));
        lemma_json_escape_push(s.drop_first(), c);
        assert(json_escape(s.push(c)) == esc_char(s[0]) + json_escape(s.push(c).drop_first()));
        assert(json_escape(s.push(c)) == esc_char(s[0]) + (json_escape(s.drop_first()) + esc_char(
            c,
        )));
        assert(esc_char(s[0]) + (json_escape(s.drop_first()) + esc_char(c)) =~= (esc_char(s[0])
            + json_escape(s.drop_first())) + esc_char(c));
        assert(json_escape(s) == esc_char(s[0]) + json_escape(s.drop_first()));
    }
}

/// The literal between the opening brace and the id value.
pub open spec fn lit_open() -> Seq<char> {
    "{\n  \"id\": \""@
}

/// The literal between the id value and the name value.
pub open spec fn lit_name() -> Seq<char> {
    ",\n  \"name\": \""@
}

/// The literal between the name value and the port number.
pub open spec fn lit_port() -> Seq<char> {
    ",\n  \"ssh_port\": "@
}

/// The literal between the port number and the pid number.
pub open spec fn lit_pid() -> Seq<char> {
    ",\n  \"pid\": "@
}

/// The literal after the pid number, closing the object.
pub open spec fn lit_close() -> Seq<char> {
    "\n}"@
}

/// The canonical persisted text of a record.
pub open spec fn spec_encode_record(v: VmRecord) -> Seq<char> {
    lit_open() + json_escape(v.id) + seq!['"'] + lit_name() + json_escape(v.name) + seq!['"']
        + lit_port() + dec_digits(v.ssh_port as nat) + lit_pid() + dec_digits(v.pid as nat)
        + lit_close()
}

fn hex_digit(d: u8) -> (r: char)
    requires
        d < 16,
    ensures
        r == hex_char(d as int),
{
    if d < 10 {
        (0x30u8 + d) as char
    } else {
        (0x61u8 + (d - 10)) as char
    }
}

/// Appends the escape sequence of `c` to `out`.
fn push_esc_char(out: &mut Vec<char>, c: char)
    ensures
        final(out)@ == old(out)@ + esc_char(c),
{
    if c == '"' {
        out.push('\\');
        out.push('"');
    } else if c == '\\' {
        out.push('\\');
        out.push('\\');
    } else if c == '\u{8}' {
        out.push('\\');
        out.push('b');
    } else if c == '\u{c}' {
        out.push('\\');
        out.push('f');
    } else if c == '\n' {
        out.push('\\');
        out.push('n');
    } else if c == '\r' {
        out.push('\\');
        out.push('r');
    } else if c == '\t' {
        out.push('\\');
        out.push('t');
    } else {
        let u = c as u32;
        if u < 0x20 {
            out.push('\\');
            out.push('u');
            out.push('0');
            out.push('0');
            out.push(hex_digit((u / 16) as u8));
            out.push(hex_digit((u % 16) as u8));
        } else {
            out.push(c);
        }
    }
    assert(out@ =~= old(out)@ + esc_char(c));
}

/// Appends the escaped body of `s` to `out`.
fn push_escaped_str(out: &mut Vec<char>, s: &str)
    ensures
        final(out)@ == old(out)@ + json_escape(s@),
{
    let n = s.unicode_len();
    let mut i: usize = 0;
    while i < n
        invariant
            i <= n,
            n == s@.len(),
            out@ == old(out)@ + json_escape(s@.take(i as int)),
        decreases n - i,
    {
        push_esc_char(out, s.get_char(i));
        i = i + 1;
        proof {
            lemma_json_escape_push(s@.take(i - 1), s@[i - 1]);
            assert(s@.take(i as int).drop_last() =~= s@.take(i - 1));
            assert(s@.take(i as int) =~= s@.take(i - 1).push(s@[i - 1]));
            assert(out@ =~= old(out)@ + json_escape(s@.take(i as int)));
        }
    }
    assert(s@.take(n as int) =~= s@);
}

/// The canonical persisted text of `v`.
pub fn encode_vm_info(v: &VmInfo) -> (r: String)
    ensures
        r@ == spec_encode_record(v@),
{
    let mut out: Vec<char> = Vec::new();
    push_str_chars(&mut out, "{\n  \"id\": \"");
    push_escaped_str(&mut out, v.id.as_str());
    out.push('"');
    push_str_chars(&mut out, ",\n  \"name\": \"");
    push_escaped_str(&mut out, v.name.as_str());
    out.push('"');
    push_str_chars(&mut out, ",\n  \"ssh_port\": ");
    push_dec_u32(&mut out, v.ssh_port as u32);
    push_str_chars(&mut out, ",\n  \"pid\": ");
    push_dec_u32(&mut out, v.pid);
    push_str_chars(&mut out, "\n}");
    proof {
        assert(out@ =~= spec_encode_record(v@));
    }
    chars_to_string(&out)
}

/// The character a two-character escape stands for, if it is one.
pub open spec fn unesc_char(e: char) -> Option<char> {
    if e == '"' {
        Some('"')
    } else if e == '\\' {
        Some('\\')
    } else if e == '/' {
        Some('/')
    } else if e == 'b' {
        Some('\u{8}')
    } else if e == 'f' {
        Some('\u{c}')
    } else if e == 'n' {
        Some('\n')
    } else if e == 'r' {
        Some('\r')
    } else if e == 't' {
        Some('\t')
    } else {
        None
    }
}

/// Reads a JSON string body up to and including its closing quote:
/// the decoded text and the remaining input, or nothing if the input
/// is not a well-formed string body. `\uXXXX` escapes are accepted for
/// control characters only, the only ones the encoder produces them
/// for; a raw control character is refused.
pub open spec fn spec_parse_jstring(s: Seq<char>) -> Option<(Seq<char>, Seq<char>)>
    decreases s.len(),
{
    if s.len() == 0 {
        None
    } else if s[0] == '"' {
        Some((Seq::empty(), s.drop_first()))
    } else if s[0] == '\\' {
        if s.len() < 2 {
            None
        } else if s[1] == 'u' {
            if s.len() < 6 {
                None
            } else if is_hex(s[2]) && is_hex(s[3]) && is_hex(s[4]) && is_hex(s[5]) {
                let u = hex_val(s[2]) * 0x1000 + hex_val(s[3]) * 0x100 + hex_val(s[4]) * 16
                    + hex_val(s[5]);
                if u < 0x20 {
                    match spec_parse_jstring(s.skip(6)) {
                        Some(p) => Some((seq![(u as u8) as char] + p.0, p.1)),
                        None => None,
                    }
                } else {
                    None
                }
            } else {
                None
            }
        } else {
            match unesc_char(s[1]) {
                Some(c) => match spec_parse_jstring(s.skip(2)) {
                    Some(p) => Some((seq![c] + p.0, p.1)),
                    None => None,
                },
                None => None,
            }
        }
    } else if (s[0] as int) < 0x20 {
        None
    } else {
        match spec_parse_jstring(s.drop_first()) {
            Some(p) => Some((seq![s[0]] + p.0, p.1)),
            None => None,
        }
    }
}

/// Reads the longest run of decimal digits, accumulating onto `acc`:
/// the value and the remaining input.
pub open spec fn spec_parse_digits(s: Seq<char>, acc: nat) -> (nat, Seq<char>)
    decreases s.len(),
{
    if s.len() > 0 && is_digit(s[0]) {
        spec_parse_digits(s.drop_first(), (acc * 10 + digit_val(s[0])) as nat)
    } else {
        (acc, s)
    }
}

/// The input after `lit`, when `lit` starts it.
pub open spec fn strip_lit(s: Seq<char>, lit: Seq<char>) -> Option<Seq<char>> {
    if lit.is_prefix_of(s) {
        Some(s.skip(lit.len() as int))
    } else {
        None
    }
}

/// Reads a whole persisted record: the canonical object shape, with the
/// four fields in their fixed order and nothing after the closing brace.
pub open spec fn spec_parse_record(s: Seq<char>) -> Option<VmRecord> {
    match strip_lit(s, lit_open()) {
        None => None,
        Some(s1) => match spec_parse_jstring(s1) {
            None => None,
            Some((id, s2)) => match strip_lit(s2, lit_name()) {
                None => None,
                Some(s3) => match spec_parse_jstring(s3) {
                    None => None,
                    Some((name, s4)) => match strip_lit(s4, lit_port()) {
                        None => None,
                        Some(s5) => if s5.len() > 0 && is_digit(s5[0]) {
                            let (port, s6) = spec_parse_digits(s5, 0);
                            if port <= 0xFFFF {
                                match strip_lit(s6, lit_pid()) {
                                    None => None,
                                    Some(s7) => if s7.len() > 0 && is_digit(s7[0]) {
                                        let (pid, s8) = spec_parse_digits(s7, 0);
                                        if pid <= 0xFFFF_FFFF && s8 == lit_close() {
                                            Some(
                                                VmRecord {
                                                    id,
                                                    name,
                                                    ssh_port: port as u16,
                                                    pid: pid as u32,
                                                },
                                            )
                                        } else {
                                            None
                                        }
                                    } else {
                                        None
                                    },
                                }
                            } else {
                                None
                            }
                        } else {
                            None
                        },
                    },
                },
            },
        },
    }
}

/// Whether position `m` of `s` holds a decimal digit.
fn digit_at(s: &Vec<char>, m: usize) -> (b: bool)
    requires
        m <= s@.len(),
    ensures
        b == (m < s@.len() && is_digit(s@[m as int])),
        s@.len() <= usize::MAX,
{
    if m < s.len() {
        let u = char_code(s[m]);
        0x30 <= u && u <= 0x39
    } else {
        false
    }
}

/// Position after `lit`, when `lit` occurs at position `i` of `s`.
fn match_lit(s: &Vec<char>, i: usize, lit: &str) -> (r: Option<usize>)
    requires
        i <= s@.len(),
    ensures
        match r {
            Some(j) => lit@.is_prefix_of(s@.skip(i as int)) && i <= j <= s@.len() && j == i
                + lit@.len(),
            None => !lit@.is_prefix_of(s@.skip(i as int)),
        },
{
    let n = lit.unicode_len();
    if s.len() - i < n {
        return None;
    }
    let mut k: usize = 0;
    while k < n
        invariant
            k <= n,
            n == lit@.len(),
            i + n <= s@.len(),
            i + n <= usize::MAX,
            forall|t: int| 0 <= t < k ==> s@[i + t] == lit@[t],
        decreases n - k,
    {
        if s[i + k] != lit.get_char(k) {
            proof {
                assert(s@.skip(i as int)[k as int] == s@[i + k]);
                if lit@.is_prefix_of(s@.skip(i as int)) {
                    assert(lit@[k as int] == s@.skip(i as int).subrange(0, n as int)[k as int]);
                }
            }
            return None;
        }
        k = k + 1;
    }
    proof {
        assert(lit@ =~= s@.skip(i as int).subrange(0, n as int));
    }
    Some(i + n)
}

fn unesc_exec(e: char) -> (r: Option<char>)
    ensures
        r == unesc_char(e),
{
    if e == '"' {
        Some('"')
    } else if e == '\\' {
        Some('\\')
    } else if e == '/' {
        Some('/')
    } else if e == 'b' {
        Some('\u{8}')
    } else if e == 'f' {
        Some('\u{c}')
    } else if e == 'n' {
        Some('\n')
    } else if e == 'r' {
        Some('\r')
    } else if e == 't' {
        Some('\t')
    } else {
        None
    }
}

/// The hexadecimal digit at position `m` of `s`, if it is one.
fn hex_at(s: &Vec<char>, m: usize) -> (r: Option<u8>)
    requires
        m < s@.len(),
    ensures
        match r {
            Some(h) => is_hex(s@[m as int]) && h as int == hex_val(s@[m as int]) && h < 16,
            None => !is_hex(s@[m as int]),
        },
{
    let u = char_code(s[m]);
    if 0x30 <= u && u <= 0x39 {
        Some((u - 0x30) as u8)
    } else if 0x61 <= u && u <= 0x66 {
        Some((u - 0x61 + 10) as u8)
    } else if 0x41 <= u && u <= 0x46 {
        Some((u - 0x41 + 10) as u8)
    } else {
        None
    }
}

/// Reads a JSON string body starting at `i`, which must sit just after
/// the opening quote: the decoded text and the position after the
/// closing quote.
fn parse_jstring(s: &Vec<char>, i: usize) -> (r: Option<(Vec<char>, usize)>)
    requires
        i <= s@.len(),
    ensures
        match r {
            Some(p) => i <= p.1 <= s@.len() && spec_parse_jstring(s@.skip(i as int)) == Some(
                (p.0@, s@.skip(p.1 as int)),
            ),
            None => spec_parse_jstring(s@.skip(i as int)) is None,
        },
{
    let mut acc: Vec<char> = Vec::new();
    let mut m: usize = i;
    proof {
        match spec_parse_jstring(s@.skip(i as int)) {
            Some(p) => {
                assert(Seq::<char>::empty() + p.0 =~= p.0);
            },
            None => {},
        }
    }
    loop
        invariant
            i <= m <= s@.len(),
            match spec_parse_jstring(s@.skip(m as int)) {
                Some(p) => spec_parse_jstring(s@.skip(i as int)) == Some((acc@ + p.0, p.1)),
                None => spec_parse_jstring(s@.skip(i as int)) is None,
            },
        decreases s@.len() - m,
    {
        proof {
            assert(s@.skip(m as int).len() == s@.len() - m);
        }
        if m >= s.len() {
            return None;
        }
        let c = s[m];
        proof {
            assert(s@.skip(m as int)[0] == s@[m as int]);
        }
        if c == '"' {
            proof {
                assert(s@.skip(m as int).drop_first() =~= s@.skip(m + 1));
                assert(acc@ + Seq::<char>::empty() =~= acc@);
            }
            return Some((acc, m + 1));
        } else if c == '\\' {
            if s.len() - m < 2 {
                return None;
            }
            let e = s[m + 1];
            proof {
                assert(s@.skip(m as int)[1] == s@[m + 1]);
            }
            if e == 'u' {
                if s.len() - m < 6 {
                    return None;
                }
                proof {
                    assert(s@.skip(m as int)[2] == s@[m + 2]);
                    assert(s@.skip(m as int)[3] == s@[m + 3]);
                    assert(s@.skip(m as int)[4] == s@[m + 4]);
                    assert(s@.skip(m as int)[5] == s@[m + 5]);
                }
                let h2 = match hex_at(s, m + 2) {
                    Some(h) => h,
                    None => {
                        return None;
                    },
                };
                let h3 = match hex_at(s, m + 3) {
                    Some(h) => h,
                    None => {
                        return None;
                    },
                };
                let h4 = match hex_at(s, m + 4) {
                    Some(h) => h,
                    None => {
                        return None;
                    },
                };
                let h5 = match hex_at(s, m + 5) {
                    Some(h) => h,
                    None => {
                        return None;
                    },
                };
                let u: u32 = (h2 as u32) * 0x1000 + (h3 as u32) * 0x100 + (h4 as u32) * 16 + (
                h5 as u32);
                if u >= 0x20 {
                    return None;
                }
                let d = (u as u8) as char;
                let ghost acc0 = acc@;
                acc.push(d);
                proof {
                    assert(s@.skip(m as int).skip(6) =~= s@.skip(m + 6));
                    match spec_parse_jstring(s@.skip(m + 6)) {
                        Some(p) => {
                            assert(spec_parse_jstring(s@.skip(m as int)) == Some(
                                (seq![d] + p.0, p.1),
                            ));
                            assert(acc0 + (seq![d] + p.0) =~= acc@ + p.0);
                        },
                        None => {},
                    }
                }
                m = m + 6;
            } else {
                let c2 = match unesc_exec(e) {
                    Some(c2) => c2,
                    None => {
                        return None;
                    },
                };
                let ghost acc0 = acc@;
                acc.push(c2);
                proof {
                    assert(s@.skip(m as int).skip(2) =~= s@.skip(m + 2));
                    match spec_parse_jstring(s@.skip(m + 2)) {
                        Some(p) => {
                            assert(spec_parse_jstring(s@.skip(m as int)) == Some(
                                (seq![c2] + p.0, p.1),
                            ));
                            assert(acc0 + (seq![c2] + p.0) =~= acc@ + p.0);
                        },
                        None => {},
                    }
                }
                m = m + 2;
            }
        } else {
            let u = char_code(c);
            if u < 0x20 {
                return None;
            }
            let ghost acc0 = acc@;
            acc.push(c);
            proof {
                assert(s@.skip(m as int).drop_first() =~= s@.skip(m + 1));
                match spec_parse_jstring(s@.skip(m + 1)) {
                    Some(p) => {
                        assert(spec_parse_jstring(s@.skip(m as int)) == Some((seq![c] + p.0, p.1)));
                        assert(acc0 + (seq![c] + p.0) =~= acc@ + p.0);
                    },
                    None => {},
                }
            }
            m = m + 1;
        }
    }
}

/// Reads a run of decimal digits at `i`: the value when it fits in 32
/// bits, and the position after the run.
fn parse_digits(s: &Vec<char>, i: usize) -> (r: (Option<u32>, usize))
    requires
        i <= s@.len(),
    ensures
        i <= r.1 <= s@.len(),
        spec_parse_digits(s@.skip(i as int), 0).1 == s@.skip(r.1 as int),
        match r.0 {
            Some(x) => spec_parse_digits(s@.skip(i as int), 0).0 == x as nat,
            None => spec_parse_digits(s@.skip(i as int), 0).0 > u32::MAX,
        },
{
    let ghost mut g: nat = 0nat;
    let mut acc: u64 = 0;
    let mut over: bool = false;
    let mut m: usize = i;
    while digit_at(s, m)
        invariant
            i <= m <= s@.len(),
            spec_parse_digits(s@.skip(i as int), 0) == spec_parse_digits(s@.skip(m as int), g),
            if over {
                g > u32::MAX
            } else {
                g == acc as nat && acc <= u32::MAX as u64
            },
        decreases s@.len() - m,
    {
        let d = char_code(s[m]) - 0x30;
        proof {
            assert(s@.skip(m as int)[0] == s@[m as int]);
            assert(s@.skip(m as int).drop_first() =~= s@.skip(m + 1));
            assert(spec_parse_digits(s@.skip(m as int), g) == spec_parse_digits(
                s@.skip(m + 1),
                (g * 10 + digit_val(s@[m as int])) as nat,
            ));
        }
        if !over {
            acc = acc * 10 + d as u64;
            if acc > 0xFFFF_FFFFu64 {
                over = true;
            }
        }
        proof {
            if g > u32::MAX {
                assert(g * 10 + digit_val(s@[m as int]) > u32::MAX);
            }
            g = (g * 10 + digit_val(s@[m as int])) as nat;
        }
        m = m + 1;
    }
    proof {
        assert(s@.skip(m as int).len() == s@.len() - m);
        if m < s@.len() {
            assert(s@.skip(m as int)[0] == s@[m as int]);
        }
        assert(spec_parse_digits(s@.skip(m as int), g) == (g, s@.skip(m as int)));
    }
    if over {
        (None, m)
    } else {
        (Some(acc as u32), m)
    }
}

/// Decodes a persisted record, accepting exactly the canonical form the
/// encoder produces; anything else is corrupt and yields nothing.
pub fn parse_vm_info(contents: &str) -> (r: Option<VmInfo>)
    ensures
        match r {
            Some(v) => spec_parse_record(contents@) == Some(v@),
            None => spec_parse_record(contents@) is None,
        },
{
    let s = str_to_chars(contents);
    proof {
        assert(s@.skip(0) =~= s@);
    }
    let i1 = match match_lit(&s, 0, "{\n  \"id\": \"") {
        Some(j) => j,
        None => {
            return None;
        },
    };
    let ghost s1 = s@.skip(i1 as int);
    proof {
        assert(strip_lit(s@, lit_open()) == Some(s1));
    }
    let (id_chars, i2) = match parse_jstring(&s, i1) {
        Some(p) => p,
        None => {
            return None;
        },
    };
    let ghost s2 = s@.skip(i2 as int);
    let i3 = match match_lit(&s, i2, ",\n  \"name\": \"") {
        Some(j) => j,
        None => {
            return None;
        },
    };
    let ghost s3 = s@.skip(i3 as int);
    proof {
        assert(strip_lit(s2, lit_name()) == Some(s3)) by {
            assert(s2.skip(lit_name().len() as int) =~= s@.skip(i3 as int));
        }
    }
    let (name_chars, i4) = match parse_jstring(&s, i3) {
        Some(p) => p,
        None => {
            return None;
        },
    };
    let ghost s4 = s@.skip(i4 as int);
    let i5 = match match_lit(&s, i4, ",\n  \"ssh_port\": ") {
        Some(j) => j,
        None => {
            return None;
        },
    };
    let ghost s5 = s@.skip(i5 as int);
    proof {
        assert(strip_lit(s4, lit_port()) == Some(s5)) by {
            assert(s4.skip(lit_port().len() as int) =~= s@.skip(i5 as int));
        }
    }
    if !digit_at(&s, i5) {
        proof {
            assert(s5.len() == s@.len() - i5);
            if s5.len() > 0 {
                assert(s5[0] == s@[i5 as int]);
            }
        }
        return None;
    }
    proof {
        assert(s5[0] == s@[i5 as int]);
    }
    let (port_opt, i6) = parse_digits(&s, i5);
    let port = match port_opt {
        Some(x) => x,
        None => {
            return None;
        },
    };
    if port > 0xFFFF {
        return None;
    }
    let ghost s6 = s@.skip(i6 as int);
    let i7 = match match_lit(&s, i6, ",\n  \"pid\": ") {
        Some(j) => j,
        None => {
            return None;
        },
    };
    let ghost s7 = s@.skip(i7 as int);
    proof {
        assert(strip_lit(s6, lit_pid()) == Some(s7)) by {
            assert(s6.skip(lit_pid().len() as int) =~= s@.skip(i7 as int));
        }
    }
    if !digit_at(&s, i7) {
        proof {
            assert(s7.len() == s@.len() - i7);
            if s7.len() > 0 {
                assert(s7[0] == s@[i7 as int]);
            }
        }
        return None;
    }
    proof {
        assert(s7[0] == s@[i7 as int]);
    }
    let (pid_opt, i8) = parse_digits(&s, i7);
    let pid = match pid_opt {
        Some(x) => x,
        None => {
            return None;
        },
    };
    let ghost s8 = s@.skip(i8 as int);
    let j = match match_lit(&s, i8, "\n}") {
        Some(j) => j,
        None => {
            proof {
                if s8 == lit_close() {
                    assert(lit_close() =~= lit_close().subrange(0, lit_close().len() as int));
                }
            }
            return None;
        },
    };
    if j != s.len() {
        proof {
            assert(s8.len() == s@.len() - i8);
        }
        return None;
    }
    proof {
        assert(lit_close() =~= s8.subrange(0, lit_close().len() as int));
        assert(s8.subrange(0, lit_close().len() as int) =~= s8);
    }
    let id = chars_to_string(&id_chars);
    let name = chars_to_string(&name_chars);
    Some(VmInfo { id, name, ssh_port: port as u16, pid })
}

/// A literal at the head of the input is stripped, leaving the rest.
pub proof fn lemma_strip_lit_concat(lit: Seq<char>, rest: Seq<char>)
    ensures
        strip_lit(lit + rest, lit) == Some(rest),
{
    assert(lit =~= (lit + rest).subrange(0, lit.len() as int));
    assert((lit + rest).skip(lit.len() as int) =~= rest);
}

/// Reading a string body inverts escaping: the escaped text, a closing
/// quote and anything after parse back as the original text.
pub proof fn lemma_parse_jstring_of_escape(t: Seq<char>, rest: Seq<char>)
    ensures
        spec_parse_jstring(json_escape(t) + seq!['"'] + rest) == Some((t, rest)),
    decreases t.len(),
{
    let s = json_escape(t) + seq!['"'] + rest;
    if t.len() == 0 {
        assert(json_escape(t) == Seq::<char>::empty());
        assert(s[0] == '"');
        assert(s.drop_first() =~= rest);
        assert(t =~= Seq::<char>::empty());
    } else {
        let c = t[0];
        let t2 = t.drop_first();
        lemma_parse_jstring_of_escape(t2, rest);
        let s2 = json_escape(t2) + seq!['"'] + rest;
        assert(json_escape(t) == esc_char(c) + json_escape(t2));
        let e = esc_char(c);
        assert(s =~= e + s2);
        if c == '"' || c == '\\' || c == '\u{8}' || c == '\u{c}' || c == '\n' || c == '\r' || c
            == '\t' {
            assert(e.len() == 2);
            assert(s[0] == '\\');
            assert(s[1] == e[1]);
            assert(s[1] != 'u');
            assert(unesc_char(s[1]) == Some(c));
            assert(s.skip(2) =~= s2);
            assert(spec_parse_jstring(s) == Some((seq![c] + t2, rest)));
            assert(seq![c] + t2 =~= t);
        } else if (c as int) < 0x20 {
            crate::text::lemma_char_bounds(c);
            let hi = c as int / 16;
            let lo = c as int % 16;
            lemma_hex_char_val(hi);
            lemma_hex_char_val(lo);
            assert(e.len() == 6);
            assert(s[0] == '\\');
            assert(s[1] == 'u');
            assert(s[2] == '0' && s[3] == '0');
            assert(s[4] == hex_char(hi) && s[5] == hex_char(lo));
            assert(is_hex('0') && hex_val('0') == 0);
            let u = hex_val(s[2]) * 0x1000 + hex_val(s[3]) * 0x100 + hex_val(s[4]) * 16 + hex_val(
                s[5],
            );
            assert(u == hi * 16 + lo);
            assert(u == c as int);
            assert(u < 0x20);
            assert(((u as u8) as char) == c);
            assert(s.skip(6) =~= s2);
            assert(spec_parse_jstring(s) == Some((seq![(u as u8) as char] + t2, rest)));
            assert(seq![c] + t2 =~= t);
        } else {
            assert(e.len() == 1);
            assert(s[0] == c);
            assert(s.drop_first() =~= s2);
            assert(spec_parse_jstring(s) == Some((seq![c] + t2, rest)));
            assert(seq![c] + t2 =~= t);
        }
    }
}

/// Ten to the `k`.
pub open spec fn pow10(k: nat) -> nat
    decreases k,
{
    if k == 0 {
        1
    } else {
        10 * pow10((k - 1) as nat)
    }
}

/// Reading digits inverts decimal rendering, shifting the accumulator
/// past the rendered digits.
pub proof fn lemma_parse_digits_of_dec(n: nat, acc: nat, rest: Seq<char>)
    ensures
        spec_parse_digits(dec_digits(n) + rest, acc) == spec_parse_digits(
            rest,
            (acc * pow10(dec_digits(n).len()) + n) as nat,
        ),
    decreases n,
{
    let s = dec_digits(n) + rest;
    if n < 10 {
        crate::text::lemma_digit_char_val(n as int);
        assert(dec_digits(n) == seq![digit_char(n as int)]);
        assert(s[0] == digit_char(n as int));
        assert(is_digit(s[0]));
        assert(digit_val(s[0]) == n);
        assert(s.drop_first() =~= rest);
        assert(spec_parse_digits(s, acc) == spec_parse_digits(rest, (acc * 10 + n) as nat));
        assert(dec_digits(n).len() == 1);
        assert(pow10(0) == 1);
        assert(pow10(1) == 10);
    } else {
        let d = (n % 10) as int;
        let m = (n / 10) as nat;
        crate::text::lemma_digit_char_val(d);
        assert(dec_digits(n) == dec_digits(m).push(digit_char(d)));
        let ghost ll = dec_digits(m).len();
        assert(dec_digits(n).len() == ll + 1);
        let mid = seq![digit_char(d)] + rest;
        assert(s =~= dec_digits(m) + mid);
        lemma_parse_digits_of_dec(m, acc, mid);
        let a2: nat = (acc * pow10(ll) + m) as nat;
        assert(spec_parse_digits(s, acc) == spec_parse_digits(mid, a2));
        assert(mid[0] == digit_char(d));
        assert(is_digit(mid[0]));
        assert(digit_val(mid[0]) == d);
        assert(mid.drop_first() =~= rest);
        assert(spec_parse_digits(mid, a2) == spec_parse_digits(rest, (a2 * 10 + d) as nat));
        assert(pow10(ll + 1) == 10 * pow10(ll));
        assert(n == m * 10 + d);
        assert(a2 * 10 + d == acc * pow10(ll + 1) + n) by (nonlinear_arith)
            requires
                a2 == acc * pow10(ll) + m,
                pow10(ll + 1) == 10 * pow10(ll),
                n == m * 10 + d,
        ;
    }
}

/// Decoding inverts encoding: the canonical text of any record reads
/// back as exactly that record.
#[verifier::rlimit(100)]
pub proof fn lemma_record_round_trip(v: VmRecord)
    ensures
        spec_parse_record(spec_encode_record(v)) == Some(v),
{
    let s = spec_encode_record(v);
    let tail_close = lit_close();
    let tail_pid_digits = dec_digits(v.pid as nat) + tail_close;
    let tail_pid = lit_pid() + tail_pid_digits;
    let tail_port_digits = dec_digits(v.ssh_port as nat) + tail_pid;
    let tail_port = lit_port() + tail_port_digits;
    let name_part = json_escape(v.name) + seq!['"'] + tail_port;
    let tail_name = lit_name() + name_part;
    let id_part = json_escape(v.id) + seq!['"'] + tail_name;
    assert(s =~= lit_open() + id_part);
    lemma_strip_lit_concat(lit_open(), id_part);
    assert(strip_lit(s, lit_open()) == Some(id_part));
    lemma_parse_jstring_of_escape(v.id, tail_name);
    assert(spec_parse_jstring(id_part) == Some((v.id, tail_name)));
    lemma_strip_lit_concat(lit_name(), name_part);
    lemma_parse_jstring_of_escape(v.name, tail_port);
    lemma_strip_lit_concat(lit_port(), tail_port_digits);
    lemma_dec_digits_are_digits(v.ssh_port as nat);
    assert(tail_port_digits[0] == dec_digits(v.ssh_port as nat)[0]);
    assert(is_digit(tail_port_digits[0]));
    lemma_parse_digits_of_dec(v.ssh_port as nat, 0, tail_pid);
    reveal_strlit(",\n  \"pid\": ");
    reveal_strlit("\n}");
    assert(tail_pid[0] == lit_pid()[0]);
    assert(lit_pid()[0] == ',');
    assert(!is_digit(','));
    assert(spec_parse_digits(tail_pid, (0 * pow10(dec_digits(v.ssh_port as nat).len())
        + v.ssh_port as nat) as nat) == spec_parse_digits(tail_pid, v.ssh_port as nat));
    assert(spec_parse_digits(tail_pid, v.ssh_port as nat) == (v.ssh_port as nat, tail_pid));
    assert(spec_parse_digits(tail_port_digits, 0) == (v.ssh_port as nat, tail_pid));
    lemma_strip_lit_concat(lit_pid(), tail_pid_digits);
    lemma_dec_digits_are_digits(v.pid as nat);
    assert(tail_pid_digits[0] == dec_digits(v.pid as nat)[0]);
    assert(is_digit(tail_pid_digits[0]));
    lemma_parse_digits_of_dec(v.pid as nat, 0, tail_close);
    assert(tail_close[0] == '\n');
    assert(!is_digit('\n'));
    assert(spec_parse_digits(tail_close, (0 * pow10(dec_digits(v.pid as nat).len())
        + v.pid as nat) as nat) == spec_parse_digits(tail_close, v.pid as nat));
    assert(spec_parse_digits(tail_close, v.pid as nat) == (v.pid as nat, tail_close));
    assert(spec_parse_digits(tail_pid_digits, 0) == (v.pid as nat, tail_close));
    assert(spec_parse_record(s) == Some(
        VmRecord {
            id: v.id,
            name: v.name,
            ssh_port: (v.ssh_port as nat) as u16,
            pid: (v.pid as nat) as u32,
        },
    ));
    assert((VmRecord {
        id: v.id,
        name: v.name,
        ssh_port: (v.ssh_port as nat) as u16,
        pid: (v.pid as nat) as u32,
    }) =~= v);
}

} // verus!
