//! The text that is handed to the clipboard: standard base64 and the
//! terminal's OSC 52 clipboard sequence.

use vstd::prelude::*;
use vstd::string::StringSliceAdditionalSpecFns;
use crate::text::push_str;

verus! {

/// The base64 alphabet: `A`–`Z`, `a`–`z`, `0`–`9`, `+`, `/`.
pub open spec fn b64_digit(i: int) -> char {
    if i < 26 {
        ('A' as int + i) as char
    } else if i < 52 {
        ('a' as int + (i - 26)) as char
    } else if i < 62 {
        ('0' as int + (i - 52)) as char
    } else if i == 62 {
        '+'
    } else {
        '/'
    }
}

/// Standard base64 with `=` padding: each group of three bytes becomes four
/// digits of six bits each, most significant first.
pub open spec fn base64(input: Seq<u8>) -> Seq<char>
    decreases input.len(),
{
    if input.len() == 0 {
        Seq::empty()
    } else if input.len() == 1 {
        let b0 = input[0] as int;
        seq![b64_digit(b0 / 4), b64_digit((b0 % 4) * 16), '=', '=']
    } else if input.len() == 2 {
        let b0 = input[0] as int;
        let b1 = input[1] as int;
        seq![b64_digit(b0 / 4), b64_digit((b0 % 4) * 16 + b1 / 16), b64_digit((b1 % 16) * 4), '=']
    } else {
        let b0 = input[0] as int;
        let b1 = input[1] as int;
        let b2 = input[2] as int;
        seq![
            b64_digit(b0 / 4),
            b64_digit((b0 % 4) * 16 + b1 / 16),
            b64_digit((b1 % 16) * 4 + b2 / 64),
            b64_digit(b2 % 64),
        ] + base64(input.skip(3))
    }
}

/// The base64 digit for `i`.
fn digit(i: u32) -> (c: char)
    requires
        i < 64,
    ensures
        c == b64_digit(i as int),
{
    let v: u8 = i as u8;
    if v < 26 {
        (65u8 + v) as char
    } else if v < 52 {
        (97u8 + (v - 26)) as char
    } else if v < 62 {
        (48u8 + (v - 52)) as char
    } else if v == 62 {
        '+'
    } else {
        '/'
    }
}

/// Minimal standard base64 encoder.
pub fn base64_encode(input: &[u8]) -> (out: String)
    ensures
        out@ == base64(input@),
        out@.len() == 4 * ((input@.len() + 2) / 3),
{
    let n = input.len();
    let mut out = String::new();
    let mut i: usize = 0;
    assert(input@.skip(0) =~= input@);
    while i < n
        invariant
            i <= n == input@.len(),
            base64(input@) == out@ + base64(input@.skip(i as int)),
            out@.len() == 4 * (i as int / 3),
            i % 3 == 0,
        decreases n - i,
    {
        let ghost rest = input@.skip(i as int);
        let b0 = input[i] as u32;
        let b1: u32 = if i + 1 < n { input[i + 1] as u32 } else { 0 };
        let b2: u32 = if i + 2 < n { input[i + 2] as u32 } else { 0 };
        let w = (b0 << 16) | (b1 << 8) | b2;
        assert(b0 < 256 && b1 < 256 && b2 < 256);
        assert((w >> 18) & 0x3f == b0 / 4) by (bit_vector)
            requires
                w == (b0 << 16) | (b1 << 8) | b2,
                b0 < 256,
                b1 < 256,
                b2 < 256,
        ;
        assert((w >> 12) & 0x3f == (b0 % 4) * 16 + b1 / 16) by (bit_vector)
            requires
                w == (b0 << 16) | (b1 << 8) | b2,
                b0 < 256,
                b1 < 256,
                b2 < 256,
        ;
        assert((w >> 6) & 0x3f == (b1 % 16) * 4 + b2 / 64) by (bit_vector)
            requires
                w == (b0 << 16) | (b1 << 8) | b2,
                b0 < 256,
                b1 < 256,
                b2 < 256,
        ;
        assert(w & 0x3f == b2 % 64) by (bit_vector)
            requires
                w == (b0 << 16) | (b1 << 8) | b2,
                b0 < 256,
                b1 < 256,
                b2 < 256,
        ;
        let ghost o = out@;
        out.push(digit((w >> 18) & 0x3f));
        out.push(digit((w >> 12) & 0x3f));
        if i + 1 < n {
            out.push(digit((w >> 6) & 0x3f));
        } else {
            out.push('=');
        }
        if i + 2 < n {
            out.push(digit(w & 0x3f));
        } else {
            out.push('=');
        }
        proof {
            assert(rest[0] == input@[i as int]);
            if i + 1 < n {
                assert(rest[1] == input@[i + 1]);
            }
            if i + 2 < n {
                assert(rest[2] == input@[i + 2]);
                assert(rest.skip(3) =~= input@.skip(i + 3));
            }
            assert(out@.len() == o.len() + 4);
        }
        if i + 3 <= n {
            i = i + 3;
        } else {
            proof {
                assert(input@.skip(n as int) =~= Seq::<u8>::empty());
                assert(rest.len() < 3);
                assert(base64(rest) =~= out@.subrange(o.len() as int, out@.len() as int));
                assert(out@ =~= o + base64(rest));
                assert(out@ + base64(input@.skip(n as int)) =~= out@);
                assert(4 * (n as int / 3) + 4 == 4 * ((n as int + 2) / 3));
            }
            i = n;
            return out;
        }
        proof {
            assert(base64(rest) =~= out@.subrange(o.len() as int, out@.len() as int) + base64(rest.skip(3)));
            assert(out@ + base64(input@.skip(i as int)) =~= o + base64(rest));
        }
    }
    assert(input@.skip(n as int) =~= Seq::<u8>::empty());
    assert(out@ + Seq::<char>::empty() =~= out@);
    assert(n as int / 3 == (n as int + 2) / 3);
    out
}

/// The six bits a base64 digit stands for (anything outside the alphabet,
/// `=` included, counts as zero).
pub open spec fn b64_value(c: char) -> int {
    if 'A' <= c && c <= 'Z' {
        c as int - 'A' as int
    } else if 'a' <= c && c <= 'z' {
        c as int - 'a' as int + 26
    } else if '0' <= c && c <= '9' {
        c as int - '0' as int + 52
    } else if c == '+' {
        62
    } else if c == '/' {
        63
    } else {
        0
    }
}

/// Standard base64 decoding: each group of four digits gives three bytes,
/// one fewer for each `=` that closes the group.
pub open spec fn base64_decode(text: Seq<char>) -> Seq<u8>
    decreases text.len(),
{
    if text.len() < 4 {
        Seq::empty()
    } else {
        let d0 = b64_value(text[0]);
        let d1 = b64_value(text[1]);
        let d2 = b64_value(text[2]);
        let d3 = b64_value(text[3]);
        let bytes = seq![(d0 * 4 + d1 / 16) as u8, ((d1 % 16) * 16 + d2 / 4) as u8, ((d2 % 4) * 64 + d3) as u8];
        let n = if text[2] == '=' {
            1int
        } else if text[3] == '=' {
            2int
        } else {
            3int
        };
        bytes.take(n) + base64_decode(text.skip(4))
    }
}

proof fn lemma_digit_value(i: int)
    requires
        0 <= i < 64,
    ensures
        b64_value(b64_digit(i)) == i,
        b64_digit(i) != '=',
{
}

proof fn lemma_group_bytes(b0: int, b1: int, b2: int)
    requires
        0 <= b0 < 256,
        0 <= b1 < 256,
        0 <= b2 < 256,
    ensures
        (b0 / 4) * 4 + ((b0 % 4) * 16 + b1 / 16) / 16 == b0,
        (((b0 % 4) * 16 + b1 / 16) % 16) * 16 + ((b1 % 16) * 4 + b2 / 64) / 4 == b1,
        (((b1 % 16) * 4 + b2 / 64) % 4) * 64 + b2 % 64 == b2,
        0 <= b0 / 4 < 64,
        0 <= (b0 % 4) * 16 + b1 / 16 < 64,
        0 <= (b1 % 16) * 4 + b2 / 64 < 64,
        0 <= b2 % 64 < 64,
{
    assert(((b0 % 4) * 16 + b1 / 16) / 16 == b0 % 4) by (nonlinear_arith)
        requires 0 <= b1 < 256, 0 <= b0;
    assert(((b0 % 4) * 16 + b1 / 16) % 16 == b1 / 16) by (nonlinear_arith)
        requires 0 <= b1 < 256, 0 <= b0;
    assert(((b1 % 16) * 4 + b2 / 64) / 4 == b1 % 16) by (nonlinear_arith)
        requires 0 <= b2 < 256, 0 <= b1;
    assert(((b1 % 16) * 4 + b2 / 64) % 4 == b2 / 64) by (nonlinear_arith)
        requires 0 <= b2 < 256, 0 <= b1;
}

/// Law: decoding the base64 of any bytes gives the bytes back; the text is
/// made of alphabet digits followed by exactly as many `=` as the last group
/// lacks bytes.
pub proof fn law_base64_decodes(input: Seq<u8>)
    ensures
        base64_decode(base64(input)) == input,
        base64(input).len() == 4 * ((input.len() + 2) / 3),
        forall|i: int| 0 <= i < base64(input).len() ==> (#[trigger] base64(input)[i] == '=' <==> i >= base64(input).len()
            - (3 - input.len() % 3) % 3),
    decreases input.len(),
{
    let e = base64(input);
    if input.len() == 0 {
    } else if input.len() < 3 {
        let b0 = input[0] as int;
        let b1 = if input.len() == 2 { input[1] as int } else { 0int };
        lemma_group_bytes(b0, b1, 0);
        lemma_digit_value(b0 / 4);
        lemma_digit_value((b0 % 4) * 16 + b1 / 16);
        lemma_digit_value((b1 % 16) * 4);
        assert(e.skip(4) =~= Seq::<char>::empty());
        assert(base64_decode(Seq::<char>::empty()) == Seq::<u8>::empty());
        let d0 = b64_value(e[0]);
        let d1 = b64_value(e[1]);
        let d2 = b64_value(e[2]);
        let d3 = b64_value(e[3]);
        assert(d0 == b0 / 4);
        assert(d1 == (b0 % 4) * 16 + b1 / 16);
        assert(d0 * 4 + d1 / 16 == b0);
        assert((d0 * 4 + d1 / 16) as u8 == input[0]);
        if input.len() == 2 {
            assert(e[2] != '=' && e[3] == '=');
            assert(d2 == (b1 % 16) * 4);
            assert((d1 % 16) * 16 + d2 / 4 == b1);
            assert(((d1 % 16) * 16 + d2 / 4) as u8 == input[1]);
        } else {
            assert(e[2] == '=');
        }
        assert(base64_decode(e) =~= input);
    } else {
        let b0 = input[0] as int;
        let b1 = input[1] as int;
        let b2 = input[2] as int;
        let rest = input.skip(3);
        law_base64_decodes(rest);
        lemma_group_bytes(b0, b1, b2);
        lemma_digit_value(b0 / 4);
        lemma_digit_value((b0 % 4) * 16 + b1 / 16);
        lemma_digit_value((b1 % 16) * 4 + b2 / 64);
        lemma_digit_value(b2 % 64);
        let g = seq![
            b64_digit(b0 / 4),
            b64_digit((b0 % 4) * 16 + b1 / 16),
            b64_digit((b1 % 16) * 4 + b2 / 64),
            b64_digit(b2 % 64),
        ];
        assert(e == g + base64(rest));
        assert(e.skip(4) =~= base64(rest));
        assert(e[0] == g[0] && e[1] == g[1] && e[2] == g[2] && e[3] == g[3]);
        let bytes = seq![input[0], input[1], input[2]];
        assert(base64_decode(e) == bytes + base64_decode(base64(rest)));
        assert(bytes + rest =~= input);
        assert(rest.len() % 3 == input.len() % 3);
        assert forall|i: int| 0 <= i < e.len() implies (#[trigger] e[i] == '=' <==> i >= e.len() - (3 - input.len() % 3) % 3) by {
            if i >= 4 {
                assert(e[i] == base64(rest)[i - 4]);
            } else {
                assert(e[i] == g[i]);
            }
        }
    }
}

/// The OSC 52 sequence that asks the terminal to put `text` on the clipboard:
/// `ESC ] 52 ; c ;`, the base64 of the UTF-8 bytes, `BEL`.
pub fn osc52_sequence(text: &str) -> (out: String)
    ensures
        out@ == seq!['\u{1b}', ']', '5', '2', ';', 'c', ';'] + base64(text.spec_bytes()) + seq!['\u{7}'],
{
    let encoded = base64_encode(text.as_bytes());
    let mut out = String::new();
    out.push('\u{1b}');
    out.push(']');
    out.push('5');
    out.push('2');
    out.push(';');
    out.push('c');
    out.push(';');
    push_str(&mut out, encoded.as_str());
    out.push('\u{7}');
    assert(out@ =~= seq!['\u{1b}', ']', '5', '2', ';', 'c', ';'] + base64(text.spec_bytes()) + seq!['\u{7}']);
    out
}


/// A clipboard tool to try: the program, its arguments and the label that
/// reports it.
pub struct Candidate {
    pub program: String,
    pub args: Vec<String>,
    pub label: String,
}

/// The texts of a candidate.
pub open spec fn candidate_view(c: Candidate) -> (Seq<char>, Seq<Seq<char>>, Seq<char>) {
    (c.program@, c.args@.map_values(|a: String| a@), c.label@)
}

/// The clipboard tools to try, in order: `pbcopy` on macOS, `clip` on
/// Windows, elsewhere `wl-copy` under Wayland, then `xclip` and `xsel`.
pub open spec fn candidate_list(macos: bool, windows: bool, wayland: bool) -> Seq<(Seq<char>, Seq<Seq<char>>, Seq<char>)> {
    if macos {
        seq![("pbcopy"@, Seq::empty(), "pbcopy"@)]
    } else if windows {
        seq![("clip"@, Seq::empty(), "clip"@)]
    } else {
        (if wayland {
            seq![("wl-copy"@, Seq::empty(), "wl-copy"@)]
        } else {
            Seq::empty()
        }) + seq![
            ("xclip"@, seq!["-selection"@, "clipboard"@], "xclip"@),
            ("xsel"@, seq!["--clipboard"@, "--input"@], "xsel"@),
        ]
    }
}

fn candidate(program: &str, args: Vec<String>, label: &str) -> (c: Candidate)
    ensures
        c.program@ == program@,
        c.args == args,
        c.label@ == label@,
{
    Candidate { program: program.to_owned(), args, label: label.to_owned() }
}

/// The clipboard tools to try for the platform (`macos`, `windows`, or
/// another one with a Wayland display when `wayland`).
pub fn candidates(macos: bool, windows: bool, wayland: bool) -> (v: Vec<Candidate>)
    ensures
        v@.map_values(|c: Candidate| candidate_view(c)) == candidate_list(macos, windows, wayland),
{
    let mut v: Vec<Candidate> = Vec::new();
    let none: Vec<String> = Vec::new();
    assert(none@.map_values(|s: String| s@) =~= Seq::<Seq<char>>::empty());
    if macos {
        v.push(candidate("pbcopy", none, "pbcopy"));
    } else if windows {
        v.push(candidate("clip", none, "clip"));
    } else {
        if wayland {
            v.push(candidate("wl-copy", none, "wl-copy"));
        }
        let mut a: Vec<String> = Vec::new();
        a.push("-selection".to_owned());
        a.push("clipboard".to_owned());
        assert(a@.map_values(|s: String| s@) =~= seq!["-selection"@, "clipboard"@]);
        v.push(candidate("xclip", a, "xclip"));
        let mut b: Vec<String> = Vec::new();
        b.push("--clipboard".to_owned());
        b.push("--input".to_owned());
        assert(b@.map_values(|s: String| s@) =~= seq!["--clipboard"@, "--input"@]);
        v.push(candidate("xsel", b, "xsel"));
    }
    assert(v@.map_values(|c: Candidate| candidate_view(c)) =~= candidate_list(macos, windows, wayland));
    v
}

} // verus!
