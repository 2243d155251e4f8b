//! The manifest wire format: a JSON object whose schema-URL field is
//! written under the key `$schema`, followed by the header fields and the
//! record array, in a fixed order. The encoding is defined here as a
//! function on character sequences, together with a decoder and a proof
//! that decoding an encoded manifest gives the manifest back.

use vstd::prelude::*;
use crate::painting::{Painting, PaintingView, PaintingsList, PaintingsListView};
use crate::text::{matches_at, pattern_at};

verus! {

/// The lowercase hex digit for a value below 16.
pub open spec fn hex_digit(n: int) -> char {
    if n < 10 {
        ('0' as int + n) as char
    } else {
        ('a' as int + (n - 10)) as char
    }
}

/// How one character is written inside a JSON string: quote, backslash
/// and the common control characters get a short escape, other control
/// characters a `\u00..` escape, everything else stands as itself.
pub open spec fn escape_char(c: char) -> Seq<char> {
    if c == '"' {
        seq!['\\', '"']
    } else if c == '\\' {
        seq!['\\', '\\']
    } else if c == '\n' {
        seq!['\\', 'n']
    } else if c == '\r' {
        seq!['\\', 'r']
    } else if c == '\t' {
        seq!['\\', 't']
    } else if (c as u32) < 0x20 {
        seq!['\\', 'u', '0', '0', hex_digit(c as u32 as int / 16), hex_digit(c as u32 as int % 16)]
    } else {
        seq![c]
    }
}

/// The body of a JSON string: every character escaped as needed.
pub open spec fn escape(s: Seq<char>) -> Seq<char>
    decreases s.len(),
{
    if s.len() == 0 {
        Seq::empty()
    } else {
        escape_char(s[0]) + escape(s.skip(1))
    }
}

/// The decimal digits of a positive number, empty for zero.
pub open spec fn dec_digits(n: int) -> Seq<char>
    decreases n,
{
    if n <= 0 {
        Seq::empty()
    } else {
        dec_digits(n / 10).push(('0' as int + n % 10) as char)
    }
}

/// The decimal notation of a non-negative number.
pub open spec fn dec(n: int) -> Seq<char> {
    if n == 0 {
        seq!['0']
    } else {
        dec_digits(n)
    }
}

/// The JSON object for one painting record, fields in wire order.
pub open spec fn painting_json(p: PaintingView) -> Seq<char> {
    "{\"id\":\""@ + escape(p.id) + "\",\"name\":\""@ + escape(p.name) + "\",\"artist\":\""@
        + escape(p.artist) + "\",\"filename\":\""@ + escape(p.filename) + "\",\"width\":"@ + dec(
        p.width as int,
    ) + ",\"height\":"@ + dec(p.height as int) + "}"@
}

/// The record array's body: the records in order, separated by commas.
pub open spec fn paintings_json(ps: Seq<PaintingView>) -> Seq<char>
    decreases ps.len(),
{
    if ps.len() == 0 {
        Seq::empty()
    } else if ps.len() == 1 {
        painting_json(ps[0])
    } else {
        painting_json(ps[0]) + ","@ + paintings_json(ps.skip(1))
    }
}

/// The whole manifest: the schema URL under the wire key `$schema`, the
/// remaining header fields, then the record array.
pub open spec fn manifest_json(m: PaintingsListView) -> Seq<char> {
    "{\"$schema\":\""@ + escape(m.schema) + "\",\"version\":\""@ + escape(m.version)
        + "\",\"id\":\""@ + escape(m.id) + "\",\"name\":\""@ + escape(m.name)
        + "\",\"description\":\""@ + escape(m.description) + "\",\"paintings\":["@ + paintings_json(
        m.paintings,
    ) + "]}"@
}

/// `escape` distributes over appending one character.
pub proof fn lemma_escape_push(s: Seq<char>, c: char)
    ensures
        escape(s.push(c)) == escape(s) + escape_char(c),
    decreases s.len(),
{
    if s.len() == 0 {
        assert(s.push(c) =~= seq![c]);
        assert(seq![c].skip(1) =~= Seq::<char>::empty());
        assert(escape(s.push(c)) == escape_char(c) + escape(Seq::<char>::empty()));
        assert(escape(s.push(c)) =~= escape(s) + escape_char(c));
    } else {
        let rest = s.skip(1);
        assert(s.push(c).skip(1) =~= rest.push(c));
        lemma_escape_push(rest, c);
        assert(escape(s.push(c)) == escape_char(s.push(c)[0]) + escape(s.push(c).skip(1)));
        assert(s.push(c)[0] == s[0]);
        assert(escape(s.push(c)) == escape_char(s[0]) + (escape(rest) + escape_char(c)));
        assert(escape(s) == escape_char(s[0]) + escape(rest));
        assert(escape(s.push(c)) =~= escape(s) + escape_char(c));
    }
}

/// The lowercase hex digit of a value below 16, executable form.
fn hex_digit_char(d: u8) -> (r: char)
    requires
        d < 16,
    ensures
        r == hex_digit(d as int),
{
    if d < 10 {
        (48u8 + d) as char
    } else {
        (97u8 + (d - 10)) as char
    }
}

/// Append the escaped body of `s` to `out`.
fn escape_into(out: &mut String, s: &str)
    ensures
        final(out)@ == old(out)@ + escape(s@),
{
    let n: usize = s.unicode_len();
    let mut i: usize = 0;
    while i < n
        invariant
            n == s@.len(),
            i <= n,
            out@ == old(out)@ + escape(s@.take(i as int)),
        decreases n - i,
    {
        let ghost done = s@.take(i as int);
        let c = s.get_char(i);
        if c == '"' {
            out.push('\\');
            out.push('"');
        } else if c == '\\' {
            out.push('\\');
            out.push('\\');
        } else if c == '\n' {
            out.push('\\');
            out.push('n');
        } else if c == '\r' {
            out.push('\\');
            out.push('r');
        } else if c == '\t' {
            out.push('\\');
            out.push('t');
        } else if (c as u32) < 0x20 {
            let v: u8 = c as u8;
            out.push('\\');
            out.push('u');
            out.push('0');
            out.push('0');
            out.push(hex_digit_char(v / 16));
            out.push(hex_digit_char(v % 16));
        } else {
            out.push(c);
        }
        proof {
            lemma_escape_push(done, s@[i as int]);
            assert(s@.take(i + 1) =~= done.push(s@[i as int]));
            assert(out@ =~= old(out)@ + escape(s@.take(i + 1)));
        }
        i = i + 1;
    }
    proof {
        assert(s@.take(n as int) =~= s@);
    }
}

/// Append the decimal notation of `v` to `out`.
fn dec_into(out: &mut String, v: u32)
    ensures
        final(out)@ == old(out)@ + dec(v as int),
{
    if v == 0 {
        out.push('0');
        proof {
            assert(out@ =~= old(out)@ + dec(0));
        }
        return;
    }
    let mut digits: Vec<char> = Vec::new();
    let mut rem: u32 = v;
    while rem > 0
        invariant
            dec_digits(v as int) == dec_digits(rem as int) + digits@.reverse(),
        decreases rem,
    {
        let d: u32 = rem % 10;
        let ghost digits_before = digits@;
        digits.push((48u8 + (d as u8)) as char);
        proof {
            assert(dec_digits(rem as int) == dec_digits(rem as int / 10).push(
                ('0' as int + rem as int % 10) as char,
            ));
            assert(digits@.reverse() =~= seq![('0' as int + rem as int % 10) as char]
                + digits_before.reverse());
            assert(dec_digits(rem as int / 10) + digits@.reverse() =~= dec_digits(rem as int)
                + digits_before.reverse());
        }
        rem = rem / 10;
    }
    let mut k: usize = 0;
    let len: usize = digits.len();
    while k < len
        invariant
            len == digits@.len(),
            k <= len,
            dec_digits(v as int) == digits@.reverse(),
            out@ == old(out)@ + digits@.reverse().take(k as int),
        decreases len - k,
    {
        out.push(digits[len - 1 - k]);
        proof {
            assert(digits@.reverse()[k as int] == digits@[len - 1 - k]);
            assert(out@ =~= old(out)@ + digits@.reverse().take(k + 1));
        }
        k = k + 1;
    }
    proof {
        assert(digits@.reverse().take(len as int) =~= digits@.reverse());
        assert(dec(v as int) == dec_digits(v as int));
    }
}

/// Append the JSON object for one record to `out`.
fn painting_into(out: &mut String, p: &Painting)
    ensures
        final(out)@ == old(out)@ + painting_json(p@),
{
    out.append("{\"id\":\"");
    escape_into(out, p.id.as_str());
    out.append("\",\"name\":\"");
    escape_into(out, p.name.as_str());
    out.append("\",\"artist\":\"");
    escape_into(out, p.artist.as_str());
    out.append("\",\"filename\":\"");
    escape_into(out, p.filename.as_str());
    out.append("\",\"width\":");
    dec_into(out, p.width);
    out.append(",\"height\":");
    dec_into(out, p.height);
    out.append("}");
    proof {
        assert(out@ =~= old(out)@ + painting_json(p@));
    }
}

/// `paintings_json` distributes over appending one record.
pub proof fn lemma_paintings_json_push(ps: Seq<PaintingView>, p: PaintingView)
    ensures
        ps.len() == 0 ==> paintings_json(ps.push(p)) == painting_json(p),
        ps.len() > 0 ==> paintings_json(ps.push(p)) == paintings_json(ps) + ","@ + painting_json(
            p,
        ),
    decreases ps.len(),
{
    if ps.len() == 0 {
        assert(ps.push(p) =~= seq![p]);
    } else if ps.len() == 1 {
        assert(ps.push(p).skip(1) =~= seq![p]);
        assert(paintings_json(ps.push(p)) == painting_json(ps.push(p)[0]) + ","@ + paintings_json(
            ps.push(p).skip(1),
        ));
        assert(ps.push(p)[0] == ps[0]);
        assert(paintings_json(seq![p]) == painting_json(p));
        assert(paintings_json(ps) == painting_json(ps[0]));
        assert(paintings_json(ps.push(p)) =~= paintings_json(ps) + ","@ + painting_json(p));
    } else {
        assert(ps.push(p).skip(1) =~= ps.skip(1).push(p));
        lemma_paintings_json_push(ps.skip(1), p);
        assert(paintings_json(ps.push(p)) == painting_json(ps.push(p)[0]) + ","@ + paintings_json(
            ps.push(p).skip(1),
        ));
        assert(ps.push(p)[0] == ps[0]);
        assert(paintings_json(ps) == painting_json(ps[0]) + ","@ + paintings_json(ps.skip(1)));
        assert(paintings_json(ps.push(p)) =~= paintings_json(ps) + ","@ + painting_json(p));
    }
}

/// Strip the literal `lit` from the front of `s`.
pub open spec fn expect(s: Seq<char>, lit: Seq<char>) -> Option<Seq<char>> {
    if lit.len() <= s.len() && s.take(lit.len() as int) == lit {
        Some(s.skip(lit.len() as int))
    } else {
        None
    }
}

/// The character a short escape stands for.
pub open spec fn unescape_short(e: char) -> char {
    if e == 'n' {
        '\n'
    } else if e == 'r' {
        '\r'
    } else if e == 't' {
        '\t'
    } else {
        e
    }
}

/// The escapes of one character each: quote, backslash, newline, carriage
/// return, tab.
pub open spec fn is_short_escape(e: char) -> bool {
    e == '"' || e == '\\' || e == 'n' || e == 'r' || e == 't'
}

/// The value of a lowercase hex digit, `-1` for any other character.
pub open spec fn unhex(c: char) -> int {
    if '0' as u32 <= c as u32 && c as u32 <= '9' as u32 {
        c as u32 - '0' as u32
    } else if 'a' as u32 <= c as u32 && c as u32 <= 'f' as u32 {
        c as u32 - 'a' as u32 + 10
    } else {
        -1
    }
}

/// Read a JSON string body up to its closing quote, undoing escapes;
/// yields the decoded content and what follows the quote.
pub open spec fn scan_string(s: Seq<char>) -> Option<(Seq<char>, Seq<char>)>
    decreases s.len(),
{
    if s.len() == 0 {
        None
    } else if s[0] == '"' {
        Some((Seq::empty(), s.skip(1)))
    } else if s[0] == '\\' {
        if s.len() < 2 {
            None
        } else if is_short_escape(s[1]) {
            match scan_string(s.skip(2)) {
                Some(p) => Some((seq![unescape_short(s[1])] + p.0, p.1)),
                None => None,
            }
        } else if s[1] == 'u' {
            if s.len() < 6 {
                None
            } else if s[2] == '0' && s[3] == '0' && unhex(s[4]) >= 0 && unhex(s[5]) >= 0 {
                match scan_string(s.skip(6)) {
                    Some(p) => Some(
                        (seq![(unhex(s[4]) * 16 + unhex(s[5])) as char] + p.0, p.1),
                    ),
                    None => None,
                }
            } else {
                None
            }
        } else {
            None
        }
    } else {
        match scan_string(s.skip(1)) {
            Some(p) => Some((seq![s[0]] + p.0, p.1)),
            None => None,
        }
    }
}

/// A decimal digit.
pub open spec fn is_digit(c: char) -> bool {
    '0' as u32 <= c as u32 && c as u32 <= '9' as u32
}

/// Read digits from the front of `s`, folding them onto `acc`.
pub open spec fn scan_number(s: Seq<char>, acc: int) -> (int, Seq<char>)
    decreases s.len(),
{
    if s.len() > 0 && is_digit(s[0]) {
        scan_number(s.skip(1), acc * 10 + (s[0] as u32 - '0' as u32))
    } else {
        (acc, s)
    }
}

/// Read a decimal number that fits a `u32` from the front of `s`.
pub open spec fn scan_u32(s: Seq<char>) -> Option<(u32, Seq<char>)> {
    if s.len() == 0 || !is_digit(s[0]) {
        None
    } else {
        let r = scan_number(s, 0);
        if r.0 <= u32::MAX {
            Some((r.0 as u32, r.1))
        } else {
            None
        }
    }
}

/// Read one painting object: the skeleton between the values is fixed,
/// the values are scanned.
pub open spec fn parse_painting(s: Seq<char>) -> Option<(PaintingView, Seq<char>)> {
    match expect(s, "{\"id\":\""@) {
        None => None,
        Some(s1) => match scan_string(s1) {
            None => None,
            Some(r_id) => match expect(r_id.1, ",\"name\":\""@) {
                None => None,
                Some(s2) => match scan_string(s2) {
                    None => None,
                    Some(r_name) => match expect(r_name.1, ",\"artist\":\""@) {
                        None => None,
                        Some(s3) => match scan_string(s3) {
                            None => None,
                            Some(r_artist) => match expect(r_artist.1, ",\"filename\":\""@) {
                                None => None,
                                Some(s4) => match scan_string(s4) {
                                    None => None,
                                    Some(r_file) => match expect(r_file.1, ",\"width\":"@) {
                                        None => None,
                                        Some(s5) => match scan_u32(s5) {
                                            None => None,
                                            Some(r_w) => match expect(r_w.1, ",\"height\":"@) {
                                                None => None,
                                                Some(s6) => match scan_u32(s6) {
                                                    None => None,
                                                    Some(r_h) => match expect(r_h.1, "}"@) {
                                                        None => None,
                                                        Some(s7) => Some(
                                                            (
                                                                PaintingView {
                                                                    id: r_id.0,
                                                                    name: r_name.0,
                                                                    artist: r_artist.0,
                                                                    filename: r_file.0,
                                                                    width: r_w.0,
                                                                    height: r_h.0,
                                                                },
                                                                s7,
                                                            ),
                                                        ),
                                                    },
                                                },
                                            },
                                        },
                                    },
                                },
                            },
                        },
                    },
                },
            },
        },
    }
}

/// Read the record array's body up to its closing bracket.
pub open spec fn parse_paintings(s: Seq<char>) -> Option<(Seq<PaintingView>, Seq<char>)>
    decreases s.len(),
{
    match expect(s, "]"@) {
        Some(rest) => Some((Seq::empty(), rest)),
        None => match parse_painting(s) {
            None => None,
            Some(pr) => if pr.1.len() < s.len() {
                match expect(pr.1, ","@) {
                    Some(rest2) => if rest2.len() < s.len() {
                        match parse_paintings(rest2) {
                            Some(tail) => Some((seq![pr.0] + tail.0, tail.1)),
                            None => None,
                        }
                    } else {
                        None
                    },
                    None => match expect(pr.1, "]"@) {
                        Some(rest2) => Some((seq![pr.0], rest2)),
                        None => None,
                    },
                }
            } else {
                None
            },
        },
    }
}

/// Read a whole manifest; `None` unless the input is exactly one encoded
/// manifest.
pub open spec fn parse_manifest(s: Seq<char>) -> Option<PaintingsListView> {
    match expect(s, "{\"$schema\":\""@) {
        None => None,
        Some(s1) => match scan_string(s1) {
            None => None,
            Some(r_schema) => match expect(r_schema.1, ",\"version\":\""@) {
                None => None,
                Some(s2) => match scan_string(s2) {
                    None => None,
                    Some(r_version) => match expect(r_version.1, ",\"id\":\""@) {
                        None => None,
                        Some(s3) => match scan_string(s3) {
                            None => None,
                            Some(r_id) => match expect(r_id.1, ",\"name\":\""@) {
                                None => None,
                                Some(s4) => match scan_string(s4) {
                                    None => None,
                                    Some(r_name) => match expect(r_name.1, ",\"description\":\""@) {
                                        None => None,
                                        Some(s5) => match scan_string(s5) {
                                            None => None,
                                            Some(r_desc) => match expect(
                                                r_desc.1,
                                                ",\"paintings\":["@,
                                            ) {
                                                None => None,
                                                Some(s6) => match parse_paintings(s6) {
                                                    None => None,
                                                    Some(ps) => match expect(ps.1, "}"@) {
                                                        None => None,
                                                        Some(rest) => if rest.len() == 0 {
                                                            Some(
                                                                PaintingsListView {
                                                                    schema: r_schema.0,
                                                                    version: r_version.0,
                                                                    id: r_id.0,
                                                                    name: r_name.0,
                                                                    description: r_desc.0,
                                                                    paintings: ps.0,
                                                                },
                                                            )
                                                        } else {
                                                            None
                                                        },
                                                    },
                                                },
                                            },
                                        },
                                    },
                                },
                            },
                        },
                    },
                },
            },
        },
    }
}

/// `expect` strips exactly the literal it was given.
pub proof fn lemma_expect_prefix(lit: Seq<char>, rest: Seq<char>)
    ensures
        expect(lit + rest, lit) == Some(rest),
{
    assert((lit + rest).take(lit.len() as int) =~= lit);
    assert((lit + rest).skip(lit.len() as int) =~= rest);
}

/// `unhex` undoes `hex_digit`.
pub proof fn lemma_unhex_hex_digit(d: int)
    requires
        0 <= d < 16,
    ensures
        unhex(hex_digit(d)) == d,
{
}

/// Scanning an escaped string body finds the closing quote and undoes the
/// escapes: the content comes back unchanged.
pub proof fn lemma_scan_escape(x: Seq<char>, rest: Seq<char>)
    ensures
        scan_string(escape(x) + seq!['"'] + rest) == Some((x, rest)),
    decreases x.len(),
{
    let s = escape(x) + seq!['"'] + rest;
    if x.len() == 0 {
        assert(escape(x) =~= Seq::<char>::empty());
        assert(s =~= seq!['"'] + rest);
        assert(s[0] == '"');
        assert(s.skip(1) =~= rest);
    } else {
        let c = x[0];
        let x2 = x.skip(1);
        lemma_scan_escape(x2, rest);
        let t = escape(x2) + seq!['"'] + rest;
        assert(escape(x) == escape_char(c) + escape(x2));
        assert(s =~= escape_char(c) + t);
        if c == '"' || c == '\\' || c == '\n' || c == '\r' || c == '\t' {
            assert(escape_char(c).len() == 2 && escape_char(c)[0] == '\\');
            assert(s[0] == '\\');
            assert(s[1] == escape_char(c)[1]);
            assert(is_short_escape(s[1]));
            assert(unescape_short(s[1]) == c);
            assert(s.skip(2) =~= t);
            assert(scan_string(s) == Some((seq![c] + x2, rest)));
            assert(seq![c] + x2 =~= x);
        } else if (c as u32) < 0x20 {
            let hi = c as u32 / 16;
            let lo = c as u32 % 16;
            assert(escape_char(c) == seq!['\\', 'u', '0', '0', hex_digit(hi as int), hex_digit(
                lo as int,
            )]);
            assert(s[0] == '\\' && s[1] == 'u' && s[2] == '0' && s[3] == '0');
            assert(s[4] == hex_digit(hi as int) && s[5] == hex_digit(lo as int));
            assert(0 <= hi < 16 && 0 <= lo < 16);
            lemma_unhex_hex_digit(hi as int);
            lemma_unhex_hex_digit(lo as int);
            assert(!is_short_escape(s[1]));
            assert(s.skip(6) =~= t);
            assert(unhex(s[4]) * 16 + unhex(s[5]) == c as u32);
            vstd::utf8::char_u32_cast(c, c as u32);
            assert((unhex(s[4]) * 16 + unhex(s[5])) as char == c);
            assert(scan_string(s) == Some((seq![c] + x2, rest)));
            assert(seq![c] + x2 =~= x);
        } else {
            assert(escape_char(c) == seq![c]);
            assert(s[0] == c);
            assert(s[0] != '"' && s[0] != '\\');
            assert(s.skip(1) =~= t);
            assert(scan_string(s) == Some((seq![c] + x2, rest)));
            assert(seq![c] + x2 =~= x);
        }
    }
}

/// The digits of a number are decimal digits, and a positive number has
/// at least one.
pub proof fn lemma_dec_digits_are_digits(n: int)
    requires
        n >= 0,
    ensures
        forall|i: int| 0 <= i < dec_digits(n).len() ==> is_digit(dec_digits(n)[i]),
        n > 0 ==> dec_digits(n).len() >= 1,
    decreases n,
{
    if n > 0 {
        lemma_dec_digits_are_digits(n / 10);
        assert(is_digit(('0' as int + n % 10) as char));
        assert(forall|i: int| 0 <= i < dec_digits(n / 10).len() ==> dec_digits(n)[i]
            == dec_digits(n / 10)[i]);
    }
}

/// Folding the digits of `s` onto `acc`, as `scan_number` does.
pub open spec fn digits_val(d: Seq<char>, acc: int) -> int
    decreases d.len(),
{
    if d.len() == 0 {
        acc
    } else {
        digits_val(d.skip(1), acc * 10 + (d[0] as u32 - '0' as u32))
    }
}

/// `digits_val` distributes over appending one digit.
pub proof fn lemma_digits_val_push(d: Seq<char>, c: char, acc: int)
    ensures
        digits_val(d.push(c), acc) == digits_val(d, acc) * 10 + (c as u32 - '0' as u32),
    decreases d.len(),
{
    if d.len() == 0 {
        assert(d.push(c) =~= seq![c]);
        assert(seq![c].skip(1) =~= Seq::<char>::empty());
        assert(digits_val(d.push(c), acc) == digits_val(
            Seq::<char>::empty(),
            acc * 10 + (c as u32 - '0' as u32),
        ));
        assert(digits_val(d, acc) == acc);
    } else {
        let acc2 = acc * 10 + (d[0] as u32 - '0' as u32);
        assert(d.push(c).skip(1) =~= d.skip(1).push(c));
        lemma_digits_val_push(d.skip(1), c, acc2);
        assert(d.push(c)[0] == d[0]);
        assert(digits_val(d.push(c), acc) == digits_val(d.skip(1).push(c), acc2));
        assert(digits_val(d, acc) == digits_val(d.skip(1), acc2));
    }
}

/// Folding the decimal digits of `n` recovers `n`.
pub proof fn lemma_digits_val_dec(n: int)
    requires
        n >= 0,
    ensures
        digits_val(dec_digits(n), 0) == if n == 0 {
            0
        } else {
            n
        },
    decreases n,
{
    if n > 0 {
        lemma_digits_val_dec(n / 10);
        lemma_digits_val_push(dec_digits(n / 10), ('0' as int + n % 10) as char, 0);
        assert((('0' as int + n % 10) as char) as u32 - '0' as u32 == n % 10);
    }
}

/// `scan_number` consumes exactly a run of digits.
pub proof fn lemma_scan_number_seq(d: Seq<char>, rest: Seq<char>, acc: int)
    requires
        forall|i: int| 0 <= i < d.len() ==> is_digit(d[i]),
        rest.len() == 0 || !is_digit(rest[0]),
    ensures
        scan_number(d + rest, acc) == (digits_val(d, acc), rest),
    decreases d.len(),
{
    if d.len() == 0 {
        assert(d + rest =~= rest);
    } else {
        assert((d + rest)[0] == d[0]);
        assert((d + rest).skip(1) =~= d.skip(1) + rest);
        lemma_scan_number_seq(d.skip(1), rest, acc * 10 + (d[0] as u32 - '0' as u32));
    }
}

/// Scanning the decimal notation of a `u32` recovers the number, when
/// what follows starts with no digit.
pub proof fn lemma_scan_dec(v: u32, rest: Seq<char>)
    requires
        rest.len() == 0 || !is_digit(rest[0]),
    ensures
        scan_u32(dec(v as int) + rest) == Some((v, rest)),
{
    let d = dec(v as int);
    lemma_dec_digits_are_digits(v as int);
    if v == 0 {
        assert(d =~= seq!['0']);
        assert(is_digit('0'));
        assert(forall|i: int| 0 <= i < d.len() ==> is_digit(d[i]));
    }
    assert(d.len() >= 1);
    assert((d + rest)[0] == d[0]);
    assert(is_digit(d[0]));
    lemma_scan_number_seq(d, rest, 0);
    if v == 0 {
        assert(d.skip(1) =~= Seq::<char>::empty());
        assert(digits_val(d, 0) == digits_val(Seq::<char>::empty(), 0));
        assert(digits_val(d, 0) == 0);
    } else {
        lemma_digits_val_dec(v as int);
    }
}

/// Concatenation of character sequences is associative.
pub proof fn lemma_concat_assoc(a: Seq<char>, b: Seq<char>, c: Seq<char>)
    ensures
        (a + b) + c == a + (b + c),
{
    assert((a + b) + c =~= a + (b + c));
}

/// The encoder's name separator is the closing quote followed by the
/// decoder's.
proof fn lemma_lit_name()
    ensures
        "\",\"name\":\""@ == seq!['"'] + ",\"name\":\""@,
{
    reveal_strlit("\",\"name\":\"");
    reveal_strlit(",\"name\":\"");
    assert("\",\"name\":\""@ =~= seq!['"'] + ",\"name\":\""@);
}

/// The encoder's artist separator is the closing quote followed by the
/// decoder's.
proof fn lemma_lit_artist()
    ensures
        "\",\"artist\":\""@ == seq!['"'] + ",\"artist\":\""@,
{
    reveal_strlit("\",\"artist\":\"");
    reveal_strlit(",\"artist\":\"");
    assert("\",\"artist\":\""@ =~= seq!['"'] + ",\"artist\":\""@);
}

/// The encoder's filename separator is the closing quote followed by the
/// decoder's.
proof fn lemma_lit_filename()
    ensures
        "\",\"filename\":\""@ == seq!['"'] + ",\"filename\":\""@,
{
    reveal_strlit("\",\"filename\":\"");
    reveal_strlit(",\"filename\":\"");
    assert("\",\"filename\":\""@ =~= seq!['"'] + ",\"filename\":\""@);
}

/// The encoder's width separator is the closing quote followed by the
/// decoder's.
proof fn lemma_lit_width()
    ensures
        "\",\"width\":"@ == seq!['"'] + ",\"width\":"@,
{
    reveal_strlit("\",\"width\":");
    reveal_strlit(",\"width\":");
    assert("\",\"width\":"@ =~= seq!['"'] + ",\"width\":"@);
}

/// The encoder's version separator is the closing quote followed by the
/// decoder's.
proof fn lemma_lit_version()
    ensures
        "\",\"version\":\""@ == seq!['"'] + ",\"version\":\""@,
{
    reveal_strlit("\",\"version\":\"");
    reveal_strlit(",\"version\":\"");
    assert("\",\"version\":\""@ =~= seq!['"'] + ",\"version\":\""@);
}

/// The encoder's id separator is the closing quote followed by the
/// decoder's.
proof fn lemma_lit_id()
    ensures
        "\",\"id\":\""@ == seq!['"'] + ",\"id\":\""@,
{
    reveal_strlit("\",\"id\":\"");
    reveal_strlit(",\"id\":\"");
    assert("\",\"id\":\""@ =~= seq!['"'] + ",\"id\":\""@);
}

/// The encoder's description separator is the closing quote followed by
/// the decoder's.
proof fn lemma_lit_description()
    ensures
        "\",\"description\":\""@ == seq!['"'] + ",\"description\":\""@,
{
    reveal_strlit("\",\"description\":\"");
    reveal_strlit(",\"description\":\"");
    assert("\",\"description\":\""@ =~= seq!['"'] + ",\"description\":\""@);
}

/// The encoder's paintings separator is the closing quote followed by the
/// decoder's.
proof fn lemma_lit_paintings()
    ensures
        "\",\"paintings\":["@ == seq!['"'] + ",\"paintings\":["@,
{
    reveal_strlit("\",\"paintings\":[");
    reveal_strlit(",\"paintings\":[");
    assert("\",\"paintings\":["@ =~= seq!['"'] + ",\"paintings\":["@);
}

/// The manifest's closing is the array's closing bracket followed by the
/// object's closing brace.
proof fn lemma_lit_end()
    ensures
        "]}"@ == seq![']'] + "}"@,
{
    reveal_strlit("]}");
    reveal_strlit("}");
    assert("]}"@ =~= seq![']'] + "}"@);
}

/// The closing bracket, as a one-character sequence.
proof fn lemma_lit_bracket()
    ensures
        "]"@ == seq![']'],
{
    reveal_strlit("]");
    assert("]"@ =~= seq![']']);
}

/// The record separator starts with a comma.
proof fn lemma_lit_comma()
    ensures
        ","@.len() == 1,
        ","@[0] == ',',
{
    reveal_strlit(",");
}

/// The height separator starts with a comma.
proof fn lemma_lit_height_head()
    ensures
        ",\"height\":"@.len() >= 1,
        ",\"height\":"@[0] == ',',
{
    reveal_strlit(",\"height\":");
}

/// The closing brace, alone.
proof fn lemma_lit_brace()
    ensures
        "}"@.len() == 1,
        "}"@[0] == '}',
{
    reveal_strlit("}");
}

/// An encoded record starts with its opening brace.
pub proof fn lemma_painting_json_head(p: PaintingView)
    ensures
        painting_json(p).len() >= 7,
        painting_json(p)[0] == '{',
{
    reveal_strlit("{\"id\":\"");
    assert("{\"id\":\""@.len() == 7);
    assert("{\"id\":\""@[0] == '{');
}

/// Reading back an encoded record gives the record, and leaves exactly
/// what followed it.
#[verifier::rlimit(100)]
pub proof fn lemma_parse_painting(p: PaintingView, rest: Seq<char>)
    ensures
        parse_painting(painting_json(p) + rest) == Some((p, rest)),
{
    let p1 = "{\"id\":\""@;
    let p2 = "\",\"name\":\""@;
    let p3 = "\",\"artist\":\""@;
    let p4 = "\",\"filename\":\""@;
    let p5 = "\",\"width\":"@;
    let p6 = ",\"height\":"@;
    let p7 = "}"@;
    let q2 = ",\"name\":\""@;
    let q3 = ",\"artist\":\""@;
    let q4 = ",\"filename\":\""@;
    let q5 = ",\"width\":"@;
    lemma_lit_name();
    lemma_lit_artist();
    lemma_lit_filename();
    lemma_lit_width();
    lemma_lit_height_head();
    lemma_lit_brace();
    let e1 = escape(p.id);
    let e2 = escape(p.name);
    let e3 = escape(p.artist);
    let e4 = escape(p.filename);
    let d1 = dec(p.width as int);
    let d2 = dec(p.height as int);
    let l1 = p1 + e1;
    let l2 = l1 + p2;
    let l3 = l2 + e2;
    let l4 = l3 + p3;
    let l5 = l4 + e3;
    let l6 = l5 + p4;
    let l7 = l6 + e4;
    let l8 = l7 + p5;
    let l9 = l8 + d1;
    let l10 = l9 + p6;
    let l11 = l10 + d2;
    let u13 = rest;
    let u12 = p7 + u13;
    let u11 = d2 + u12;
    let u10 = p6 + u11;
    let u9 = d1 + u10;
    let u8 = p5 + u9;
    let u7 = e4 + u8;
    let u6 = p4 + u7;
    let u5 = e3 + u6;
    let u4 = p3 + u5;
    let u3 = e2 + u4;
    let u2 = p2 + u3;
    let u1 = e1 + u2;
    let s = painting_json(p) + rest;
    assert(painting_json(p) == l11 + p7);
    lemma_concat_assoc(l11, p7, u13);
    assert(s == l11 + u12);
    lemma_concat_assoc(l10, d2, u12);
    assert(s == l10 + u11);
    lemma_concat_assoc(l9, p6, u11);
    assert(s == l9 + u10);
    lemma_concat_assoc(l8, d1, u10);
    assert(s == l8 + u9);
    lemma_concat_assoc(l7, p5, u9);
    assert(s == l7 + u8);
    lemma_concat_assoc(l6, e4, u8);
    assert(s == l6 + u7);
    lemma_concat_assoc(l5, p4, u7);
    assert(s == l5 + u6);
    lemma_concat_assoc(l4, e3, u6);
    assert(s == l4 + u5);
    lemma_concat_assoc(l3, p3, u5);
    assert(s == l3 + u4);
    lemma_concat_assoc(l2, e2, u4);
    assert(s == l2 + u3);
    lemma_concat_assoc(l1, p2, u3);
    assert(s == l1 + u2);
    lemma_concat_assoc(p1, e1, u2);
    assert(s == p1 + u1);
    lemma_expect_prefix(p1, u1);
    assert(expect(s, p1) == Some(u1));
    assert(p2 == seq!['"'] + q2);
    lemma_concat_assoc(seq!['"'], q2, u3);
    lemma_concat_assoc(e1, seq!['"'], q2 + u3);
    assert(u1 == (e1 + seq!['"']) + (q2 + u3));
    lemma_scan_escape(p.id, q2 + u3);
    assert(scan_string(u1) == Some((p.id, q2 + u3)));
    lemma_expect_prefix(q2, u3);
    assert(expect(q2 + u3, q2) == Some(u3));
    assert(p3 == seq!['"'] + q3);
    lemma_concat_assoc(seq!['"'], q3, u5);
    lemma_concat_assoc(e2, seq!['"'], q3 + u5);
    assert(u3 == (e2 + seq!['"']) + (q3 + u5));
    lemma_scan_escape(p.name, q3 + u5);
    assert(scan_string(u3) == Some((p.name, q3 + u5)));
    lemma_expect_prefix(q3, u5);
    assert(p4 == seq!['"'] + q4);
    lemma_concat_assoc(seq!['"'], q4, u7);
    lemma_concat_assoc(e3, seq!['"'], q4 + u7);
    assert(u5 == (e3 + seq!['"']) + (q4 + u7));
    lemma_scan_escape(p.artist, q4 + u7);
    assert(scan_string(u5) == Some((p.artist, q4 + u7)));
    lemma_expect_prefix(q4, u7);
    assert(p5 == seq!['"'] + q5);
    lemma_concat_assoc(seq!['"'], q5, u9);
    lemma_concat_assoc(e4, seq!['"'], q5 + u9);
    assert(u7 == (e4 + seq!['"']) + (q5 + u9));
    lemma_scan_escape(p.filename, q5 + u9);
    assert(scan_string(u7) == Some((p.filename, q5 + u9)));
    lemma_expect_prefix(q5, u9);
    assert(u10[0] == ',' && !is_digit(','));
    lemma_scan_dec(p.width, u10);
    assert(scan_u32(u9) == Some((p.width, u10)));
    lemma_expect_prefix(p6, u11);
    assert(u12[0] == '}' && !is_digit('}'));
    lemma_scan_dec(p.height, u12);
    assert(scan_u32(u11) == Some((p.height, u12)));
    lemma_expect_prefix(p7, u13);
    assert(p =~= (PaintingView {
        id: p.id,
        name: p.name,
        artist: p.artist,
        filename: p.filename,
        width: p.width,
        height: p.height,
    }));
    assert(parse_painting(s) == Some((p, rest)));
}

/// Reading back an encoded record array gives the records in order.
#[verifier::rlimit(100)]
pub proof fn lemma_parse_paintings(ps: Seq<PaintingView>, rest: Seq<char>)
    ensures
        parse_paintings(paintings_json(ps) + seq![']'] + rest) == Some((ps, rest)),
    decreases ps.len(),
{
    lemma_lit_bracket();
    lemma_lit_comma();
    let s = (paintings_json(ps) + seq![']']) + rest;
    if ps.len() == 0 {
        assert(paintings_json(ps) =~= Seq::<char>::empty());
        assert(s =~= "]"@ + rest);
        lemma_expect_prefix("]"@, rest);
        assert(expect(s, "]"@) == Some(rest));
        assert(ps =~= Seq::<PaintingView>::empty());
    } else {
        let p = ps[0];
        let pjp = painting_json(p);
        lemma_painting_json_head(p);
        if ps.len() == 1 {
            let tail = seq![']'] + rest;
            assert(paintings_json(ps) == pjp);
            lemma_concat_assoc(pjp, seq![']'], rest);
            assert(s == pjp + tail);
            assert(s[0] == '{');
            if expect(s, "]"@) is Some {
                assert(s.take(1) == "]"@);
                assert(s.take(1)[0] == ']');
                assert(false);
            }
            lemma_parse_painting(p, tail);
            assert(parse_painting(s) == Some((p, tail)));
            assert(tail.len() < s.len());
            if expect(tail, ","@) is Some {
                assert(tail.take(1) == ","@);
                assert(tail.take(1)[0] == tail[0]);
                assert(tail[0] == ']');
                assert(false);
            }
            assert(tail == "]"@ + rest);
            lemma_expect_prefix("]"@, rest);
            assert(expect(tail, "]"@) == Some(rest));
            assert(seq![p] =~= ps);
        } else {
            let c = ","@;
            let pj2 = paintings_json(ps.skip(1));
            let mid = pj2 + seq![']'] + rest;
            let tail = c + mid;
            assert(paintings_json(ps) == (pjp + c) + pj2);
            lemma_concat_assoc(pjp + c, pj2, seq![']']);
            assert(s == ((pjp + c) + (pj2 + seq![']'])) + rest);
            lemma_concat_assoc(pjp + c, pj2 + seq![']'], rest);
            lemma_concat_assoc(pj2, seq![']'], rest);
            assert(s == (pjp + c) + mid);
            lemma_concat_assoc(pjp, c, mid);
            assert(s == pjp + tail);
            assert(s[0] == '{');
            if expect(s, "]"@) is Some {
                assert(s.take(1) == "]"@);
                assert(s.take(1)[0] == ']');
                assert(false);
            }
            lemma_parse_painting(p, tail);
            assert(parse_painting(s) == Some((p, tail)));
            assert(tail.len() < s.len());
            lemma_expect_prefix(c, mid);
            assert(expect(tail, c) == Some(mid));
            assert(mid.len() < s.len());
            lemma_parse_paintings(ps.skip(1), rest);
            assert(parse_paintings(mid) == Some((ps.skip(1), rest)));
            assert(seq![p] + ps.skip(1) =~= ps);
        }
    }
}

/// Decoding an encoded manifest reproduces the manifest: every header
/// field and the record sequence, in order, with the schema field read
/// back from under its wire key.
#[verifier::rlimit(100)]
pub proof fn lemma_manifest_round_trip(m: PaintingsListView)
    ensures
        parse_manifest(manifest_json(m)) == Some(m),
{
    let m1 = "{\"$schema\":\""@;
    let m2 = "\",\"version\":\""@;
    let m3 = "\",\"id\":\""@;
    let m4 = "\",\"name\":\""@;
    let m5 = "\",\"description\":\""@;
    let m6 = "\",\"paintings\":["@;
    let m7 = "]}"@;
    let n2 = ",\"version\":\""@;
    let n3 = ",\"id\":\""@;
    let n4 = ",\"name\":\""@;
    let n5 = ",\"description\":\""@;
    let n6 = ",\"paintings\":["@;
    lemma_lit_version();
    lemma_lit_id();
    lemma_lit_name();
    lemma_lit_description();
    lemma_lit_paintings();
    lemma_lit_end();
    let f1 = escape(m.schema);
    let f2 = escape(m.version);
    let f3 = escape(m.id);
    let f4 = escape(m.name);
    let f5 = escape(m.description);
    let pj = paintings_json(m.paintings);
    let l1 = m1 + f1;
    let l2 = l1 + m2;
    let l3 = l2 + f2;
    let l4 = l3 + m3;
    let l5 = l4 + f3;
    let l6 = l5 + m4;
    let l7 = l6 + f4;
    let l8 = l7 + m5;
    let l9 = l8 + f5;
    let l10 = l9 + m6;
    let l11 = l10 + pj;
    let u12 = m7;
    let u11 = pj + u12;
    let u10 = m6 + u11;
    let u9 = f5 + u10;
    let u8 = m5 + u9;
    let u7 = f4 + u8;
    let u6 = m4 + u7;
    let u5 = f3 + u6;
    let u4 = m3 + u5;
    let u3 = f2 + u4;
    let u2 = m2 + u3;
    let u1 = f1 + u2;
    let s = manifest_json(m);
    assert(s == l11 + m7);
    lemma_concat_assoc(l10, pj, u12);
    assert(s == l10 + u11);
    lemma_concat_assoc(l9, m6, u11);
    assert(s == l9 + u10);
    lemma_concat_assoc(l8, f5, u10);
    assert(s == l8 + u9);
    lemma_concat_assoc(l7, m5, u9);
    assert(s == l7 + u8);
    lemma_concat_assoc(l6, f4, u8);
    assert(s == l6 + u7);
    lemma_concat_assoc(l5, m4, u7);
    assert(s == l5 + u6);
    lemma_concat_assoc(l4, f3, u6);
    assert(s == l4 + u5);
    lemma_concat_assoc(l3, m3, u5);
    assert(s == l3 + u4);
    lemma_concat_assoc(l2, f2, u4);
    assert(s == l2 + u3);
    lemma_concat_assoc(l1, m2, u3);
    assert(s == l1 + u2);
    lemma_concat_assoc(m1, f1, u2);
    assert(s == m1 + u1);
    lemma_expect_prefix(m1, u1);
    assert(expect(s, m1) == Some(u1));
    assert(m2 == seq!['"'] + n2);
    lemma_concat_assoc(seq!['"'], n2, u3);
    lemma_concat_assoc(f1, seq!['"'], n2 + u3);
    assert(u1 == (f1 + seq!['"']) + (n2 + u3));
    lemma_scan_escape(m.schema, n2 + u3);
    assert(scan_string(u1) == Some((m.schema, n2 + u3)));
    lemma_expect_prefix(n2, u3);
    assert(m3 == seq!['"'] + n3);
    lemma_concat_assoc(seq!['"'], n3, u5);
    lemma_concat_assoc(f2, seq!['"'], n3 + u5);
    assert(u3 == (f2 + seq!['"']) + (n3 + u5));
    lemma_scan_escape(m.version, n3 + u5);
    assert(scan_string(u3) == Some((m.version, n3 + u5)));
    lemma_expect_prefix(n3, u5);
    assert(m4 == seq!['"'] + n4);
    lemma_concat_assoc(seq!['"'], n4, u7);
    lemma_concat_assoc(f3, seq!['"'], n4 + u7);
    assert(u5 == (f3 + seq!['"']) + (n4 + u7));
    lemma_scan_escape(m.id, n4 + u7);
    assert(scan_string(u5) == Some((m.id, n4 + u7)));
    lemma_expect_prefix(n4, u7);
    assert(m5 == seq!['"'] + n5);
    lemma_concat_assoc(seq!['"'], n5, u9);
    lemma_concat_assoc(f4, seq!['"'], n5 + u9);
    assert(u7 == (f4 + seq!['"']) + (n5 + u9));
    lemma_scan_escape(m.name, n5 + u9);
    assert(scan_string(u7) == Some((m.name, n5 + u9)));
    lemma_expect_prefix(n5, u9);
    assert(m6 == seq!['"'] + n6);
    lemma_concat_assoc(seq!['"'], n6, u11);
    lemma_concat_assoc(f5, seq!['"'], n6 + u11);
    assert(u9 == (f5 + seq!['"']) + (n6 + u11));
    lemma_scan_escape(m.description, n6 + u11);
    assert(scan_string(u9) == Some((m.description, n6 + u11)));
    lemma_expect_prefix(n6, u11);
    assert(m7 == seq![']'] + "}"@);
    lemma_concat_assoc(pj, seq![']'], "}"@);
    assert(u11 == (pj + seq![']']) + "}"@);
    lemma_parse_paintings(m.paintings, "}"@);
    assert(parse_paintings(u11) == Some((m.paintings, "}"@)));
    lemma_expect_prefix("}"@, Seq::<char>::empty());
    assert("}"@ + Seq::<char>::empty() =~= "}"@);
    assert(expect("}"@, "}"@) == Some(Seq::<char>::empty()));
    assert(m =~= (PaintingsListView {
        schema: m.schema,
        version: m.version,
        id: m.id,
        name: m.name,
        description: m.description,
        paintings: m.paintings,
    }));
    assert(parse_manifest(s) == Some(m));
}

/// Match the literal `lit` at position `i`, yielding the position after
/// it.
fn expect_at(s: &str, i: usize, lit: &str) -> (r: Option<usize>)
    requires
        i <= s@.len(),
    ensures
        r is None <==> expect(s@.skip(i as int), lit@) is None,
        r matches Some(j) ==> i <= j <= s@.len() && j - i == lit@.len() && expect(
            s@.skip(i as int),
            lit@,
        ) == Some(s@.skip(j as int)),
{
    let n: usize = s.unicode_len();
    let m: usize = lit.unicode_len();
    if m > n - i {
        proof {
            assert(s@.skip(i as int).len() == n - i);
        }
        return None;
    }
    if pattern_at(s, lit, i) {
        proof {
            assert(s@.skip(i as int).take(lit@.len() as int) =~= s@.subrange(
                i as int,
                i + lit@.len(),
            ));
            assert(s@.skip(i as int).skip(lit@.len() as int) =~= s@.skip(i + lit@.len()));
        }
        Some(i + m)
    } else {
        proof {
            if expect(s@.skip(i as int), lit@) is Some {
                assert(s@.skip(i as int).take(lit@.len() as int) =~= s@.subrange(
                    i as int,
                    i + lit@.len(),
                ));
                assert(matches_at(s@, lit@, i as int));
                assert(false);
            }
        }
        None
    }
}

/// The value of a lowercase hex digit.
fn hex_val(c: char) -> (r: Option<u8>)
    ensures
        r is None <==> unhex(c) < 0,
        r matches Some(v) ==> unhex(c) == v as int && v < 16,
{
    let v: u32 = c as u32;
    if 48 <= v && v <= 57 {
        Some((v - 48) as u8)
    } else if 97 <= v && v <= 102 {
        Some((v - 97 + 10) as u8)
    } else {
        None
    }
}

/// Prefix already-decoded content onto a scan result.
pub open spec fn prepend_scan(acc: Seq<char>, r: Option<(Seq<char>, Seq<char>)>) -> Option<
    (Seq<char>, Seq<char>),
> {
    match r {
        Some(p) => Some((acc + p.0, p.1)),
        None => None,
    }
}

/// Read a JSON string body starting at `i`, yielding the decoded content
/// and the position after the closing quote.
fn scan_string_at(s: &str, start: usize) -> (r: Option<(String, usize)>)
    requires
        start <= s@.len(),
    ensures
        r is None <==> scan_string(s@.skip(start as int)) is None,
        r matches Some(p) ==> start < p.1 <= s@.len() && scan_string(s@.skip(start as int))
            == Some((p.0@, s@.skip(p.1 as int))),
{
    let n: usize = s.unicode_len();
    let mut acc = String::new();
    let mut i: usize = start;
    proof {
        assert(prepend_scan(acc@, scan_string(s@.skip(start as int))) == scan_string(
            s@.skip(start as int),
        )) by {
            match scan_string(s@.skip(start as int)) {
                Some(p) => {
                    assert(acc@ + p.0 =~= p.0);
                    assert((acc@ + p.0, p.1) == p);
                },
                None => {},
            }
        }
    }
    loop
        invariant
            n == s@.len(),
            start <= i <= n,
            scan_string(s@.skip(start as int)) == prepend_scan(
                acc@,
                scan_string(s@.skip(i as int)),
            ),
        decreases n - i,
    {
        let ghost s_i = s@.skip(i as int);
        let ghost acc_before = acc@;
        if i >= n {
            proof {
                assert(s_i.len() == 0);
            }
            return None;
        }
        proof {
            assert(s_i[0] == s@[i as int]);
        }
        let c = s.get_char(i);
        if c == '"' {
            proof {
                assert(s_i.skip(1) =~= s@.skip(i + 1));
                assert(scan_string(s_i) == Some((Seq::<char>::empty(), s@.skip(i + 1))));
                assert(acc@ + Seq::<char>::empty() =~= acc@);
            }
            return Some((acc, i + 1));
        }
        if c == '\\' {
            if i + 1 >= n {
                proof {
                    assert(s_i.len() < 2);
                }
                return None;
            }
            proof {
                assert(s_i.len() >= 2);
                assert(s_i[1] == s@[i + 1]);
            }
            let e = s.get_char(i + 1);
            if e == '"' || e == '\\' || e == 'n' || e == 'r' || e == 't' {
                let decoded: char = if e == 'n' {
                    '\n'
                } else if e == 'r' {
                    '\r'
                } else if e == 't' {
                    '\t'
                } else {
                    e
                };
                acc.push(decoded);
                proof {
                    assert(decoded == unescape_short(s_i[1]));
                    assert(s_i.skip(2) =~= s@.skip(i + 2));
                    lemma_prepend_scan_step(acc_before, decoded, scan_string(s@.skip(i + 2)));
                    assert(scan_string(s_i) == prepend_scan(
                        seq![decoded],
                        scan_string(s@.skip(i + 2)),
                    ));
                }
                i = i + 2;
            } else if e == 'u' {
                if n - i < 6 {
                    proof {
                        assert(s_i.len() < 6);
                    }
                    return None;
                }
                proof {
                    assert(s_i.len() >= 6);
                    assert(s_i[2] == s@[i + 2] && s_i[3] == s@[i + 3] && s_i[4] == s@[i + 4]
                        && s_i[5] == s@[i + 5]);
                    assert(!is_short_escape(s_i[1]));
                }
                if s.get_char(i + 2) != '0' || s.get_char(i + 3) != '0' {
                    return None;
                }
                let h1 = hex_val(s.get_char(i + 4));
                let h2 = hex_val(s.get_char(i + 5));
                match (h1, h2) {
                    (Some(a), Some(b)) => {
                        let decoded: char = ((a as u32) * 16 + (b as u32)) as u8 as char;
                        acc.push(decoded);
                        proof {
                            assert(decoded == (unhex(s_i[4]) * 16 + unhex(s_i[5])) as char);
                            assert(s_i.skip(6) =~= s@.skip(i + 6));
                            lemma_prepend_scan_step(
                                acc_before,
                                decoded,
                                scan_string(s@.skip(i + 6)),
                            );
                            assert(scan_string(s_i) == prepend_scan(
                                seq![decoded],
                                scan_string(s@.skip(i + 6)),
                            ));
                        }
                        i = i + 6;
                    },
                    _ => {
                        return None;
                    },
                }
            } else {
                proof {
                    assert(!is_short_escape(s_i[1]) && s_i[1] != 'u');
                }
                return None;
            }
        } else {
            acc.push(c);
            proof {
                assert(s_i.skip(1) =~= s@.skip(i + 1));
                lemma_prepend_scan_step(acc_before, c, scan_string(s@.skip(i + 1)));
                assert(scan_string(s_i) == prepend_scan(seq![c], scan_string(s@.skip(i + 1))));
            }
            i = i + 1;
        }
    }
}

/// Prefixing content distributes over prefixing one more character.
proof fn lemma_prepend_scan_step(acc: Seq<char>, c: char, r: Option<(Seq<char>, Seq<char>)>)
    ensures
        prepend_scan(acc, prepend_scan(seq![c], r)) == prepend_scan(acc.push(c), r),
{
    match r {
        Some(p) => {
            assert(acc + (seq![c] + p.0) =~= acc.push(c) + p.0);
        },
        None => {},
    }
}

/// Read a decimal number starting at `i`, yielding its value and the
/// position after its last digit; `None` when no digit starts there or
/// the value exceeds a `u32`.
fn scan_u32_at(s: &str, start: usize) -> (r: Option<(u32, usize)>)
    requires
        start <= s@.len(),
    ensures
        r is None <==> scan_u32(s@.skip(start as int)) is None,
        r matches Some(p) ==> start < p.1 <= s@.len() && scan_u32(s@.skip(start as int)) == Some(
            (p.0, s@.skip(p.1 as int)),
        ),
{
    let n: usize = s.unicode_len();
    let ghost s0 = s@.skip(start as int);
    if start >= n {
        proof {
            assert(s0.len() == 0);
        }
        return None;
    }
    proof {
        assert(s0[0] == s@[start as int]);
    }
    let c0 = s.get_char(start);
    let v0: u32 = c0 as u32;
    if !(48 <= v0 && v0 <= 57) {
        proof {
            assert(!is_digit(s0[0]));
        }
        return None;
    }
    let mut i: usize = start;
    let mut val: u32 = 0;
    let mut overflowed = false;
    let ghost mut g: int = 0;
    loop
        invariant
            n == s@.len(),
            start < n,
            start <= i <= n,
            s0 == s@.skip(start as int),
            is_digit(s0[0]),
            scan_number(s0, 0) == scan_number(s@.skip(i as int), g),
            g >= 0,
            overflowed ==> g > u32::MAX as int,
            !overflowed ==> g == val as int,
        decreases n - i,
    {
        let ghost s_i = s@.skip(i as int);
        if i >= n {
            proof {
                assert(s_i.len() == 0);
                assert(scan_number(s_i, g) == (g, s_i));
                assert(start < i);
            }
            if overflowed {
                return None;
            }
            return Some((val, i));
        }
        proof {
            assert(s_i[0] == s@[i as int]);
        }
        let c = s.get_char(i);
        let v: u32 = c as u32;
        if !(48 <= v && v <= 57) {
            proof {
                assert(!is_digit(s_i[0]));
                assert(scan_number(s_i, g) == (g, s_i));
                if i == start {
                    assert(s_i == s0);
                    assert(false);
                }
            }
            if overflowed {
                return None;
            }
            return Some((val, i));
        }
        let d: u32 = v - 48;
        proof {
            assert(is_digit(s_i[0]));
            assert(s_i.skip(1) =~= s@.skip(i + 1));
            assert(scan_number(s_i, g) == scan_number(s@.skip(i + 1), g * 10 + (v - 48)));
        }
        if overflowed {
            proof {
                assert(g * 10 >= g) by (nonlinear_arith)
                    requires
                        g >= 0,
                ;
                g = g * 10 + (d as int);
            }
        } else {
            if val > (u32::MAX - d) / 10 {
                proof {
                    let md = (u32::MAX - d) as int;
                    vstd::arithmetic::div_mod::lemma_fundamental_div_mod(md, 10);
                    assert(md % 10 < 10);
                    assert(10 * (val as int) >= 10 * (md / 10) + 10) by (nonlinear_arith)
                        requires
                            val as int >= md / 10 + 1,
                    ;
                    assert(10 * (val as int) + d > u32::MAX as int);
                    g = g * 10 + (d as int);
                }
                overflowed = true;
            } else {
                proof {
                    let md = (u32::MAX - d) as int;
                    vstd::arithmetic::div_mod::lemma_fundamental_div_mod(md, 10);
                    assert(md % 10 >= 0);
                    assert(10 * (val as int) <= 10 * (md / 10)) by (nonlinear_arith)
                        requires
                            val as int <= md / 10,
                    ;
                }
                val = val * 10 + d;
                proof {
                    g = g * 10 + (d as int);
                }
            }
        }
        i = i + 1;
    }
}

/// Read one painting object starting at `i`.
fn parse_painting_at(s: &str, start: usize) -> (r: Option<(Painting, usize)>)
    requires
        start <= s@.len(),
    ensures
        r is None <==> parse_painting(s@.skip(start as int)) is None,
        r matches Some(p) ==> start < p.1 <= s@.len() && parse_painting(s@.skip(start as int))
            == Some((p.0@, s@.skip(p.1 as int))),
{
    let i1 = match expect_at(s, start, "{\"id\":\"") {
        Some(j) => j,
        None => {
            return None;
        },
    };
    let (id_v, i2) = match scan_string_at(s, i1) {
        Some(p) => p,
        None => {
            return None;
        },
    };
    let i3 = match expect_at(s, i2, ",\"name\":\"") {
        Some(j) => j,
        None => {
            return None;
        },
    };
    let (name_v, i4) = match scan_string_at(s, i3) {
        Some(p) => p,
        None => {
            return None;
        },
    };
    let i5 = match expect_at(s, i4, ",\"artist\":\"") {
        Some(j) => j,
        None => {
            return None;
        },
    };
    let (artist_v, i6) = match scan_string_at(s, i5) {
        Some(p) => p,
        None => {
            return None;
        },
    };
    let i7 = match expect_at(s, i6, ",\"filename\":\"") {
        Some(j) => j,
        None => {
            return None;
        },
    };
    let (file_v, i8) = match scan_string_at(s, i7) {
        Some(p) => p,
        None => {
            return None;
        },
    };
    let i9 = match expect_at(s, i8, ",\"width\":") {
        Some(j) => j,
        None => {
            return None;
        },
    };
    let (w_v, i10) = match scan_u32_at(s, i9) {
        Some(p) => p,
        None => {
            return None;
        },
    };
    let i11 = match expect_at(s, i10, ",\"height\":") {
        Some(j) => j,
        None => {
            return None;
        },
    };
    let (h_v, i12) = match scan_u32_at(s, i11) {
        Some(p) => p,
        None => {
            return None;
        },
    };
    let i13 = match expect_at(s, i12, "}") {
        Some(j) => j,
        None => {
            return None;
        },
    };
    let painting = Painting {
        id: id_v,
        name: name_v,
        artist: artist_v,
        filename: file_v,
        width: w_v,
        height: h_v,
    };
    proof {
        assert(parse_painting(s@.skip(start as int)) == Some((painting@, s@.skip(i13 as int))));
    }
    Some((painting, i13))
}

/// Prefix already-read records onto a list-parse result.
pub open spec fn prepend_records(
    acc: Seq<PaintingView>,
    r: Option<(Seq<PaintingView>, Seq<char>)>,
) -> Option<(Seq<PaintingView>, Seq<char>)> {
    match r {
        Some(p) => Some((acc + p.0, p.1)),
        None => None,
    }
}

/// Prefixing records distributes over prefixing one more record.
proof fn lemma_prepend_records_step(
    acc: Seq<PaintingView>,
    p: PaintingView,
    r: Option<(Seq<PaintingView>, Seq<char>)>,
)
    ensures
        prepend_records(acc, prepend_records(seq![p], r)) == prepend_records(acc.push(p), r),
{
    match r {
        Some(q) => {
            assert(acc + (seq![p] + q.0) =~= acc.push(p) + q.0);
        },
        None => {},
    }
}

/// Read the record array's body starting at `i`, up to its closing
/// bracket.
fn parse_paintings_at(s: &str, start: usize) -> (r: Option<(Vec<Painting>, usize)>)
    requires
        start <= s@.len(),
    ensures
        r is None <==> parse_paintings(s@.skip(start as int)) is None,
        r matches Some(p) ==> p.1 <= s@.len() && parse_paintings(s@.skip(start as int)) == Some(
            (p.0@.map_values(|q: Painting| q@), s@.skip(p.1 as int)),
        ),
{
    let n: usize = s.unicode_len();
    let mut acc: Vec<Painting> = Vec::new();
    let mut i: usize = start;
    proof {
        assert(acc@.map_values(|q: Painting| q@) =~= Seq::<PaintingView>::empty());
        match parse_paintings(s@.skip(start as int)) {
            Some(p) => {
                assert(Seq::<PaintingView>::empty() + p.0 =~= p.0);
                assert((Seq::<PaintingView>::empty() + p.0, p.1) == p);
            },
            None => {},
        }
    }
    loop
        invariant
            n == s@.len(),
            start <= i <= n,
            parse_paintings(s@.skip(start as int)) == prepend_records(
                acc@.map_values(|q: Painting| q@),
                parse_paintings(s@.skip(i as int)),
            ),
        decreases n - i,
    {
        let ghost s_i = s@.skip(i as int);
        let ghost accv = acc@.map_values(|q: Painting| q@);
        match expect_at(s, i, "]") {
            Some(j) => {
                proof {
                    assert(parse_paintings(s_i) == Some(
                        (Seq::<PaintingView>::empty(), s@.skip(j as int)),
                    ));
                    assert(accv + Seq::<PaintingView>::empty() =~= accv);
                }
                return Some((acc, j));
            },
            None => {},
        }
        let (p, j) = match parse_painting_at(s, i) {
            Some(q) => q,
            None => {
                return None;
            },
        };
        proof {
            assert(s@.skip(j as int).len() < s_i.len());
        }
        let ghost pv = p@;
        acc.push(p);
        proof {
            assert(acc@.map_values(|q: Painting| q@) =~= accv.push(pv));
        }
        match expect_at(s, j, ",") {
            Some(j2) => {
                proof {
                    assert(s@.skip(j2 as int).len() < s_i.len());
                    assert(parse_paintings(s_i) == prepend_records(
                        seq![pv],
                        parse_paintings(s@.skip(j2 as int)),
                    ));
                    lemma_prepend_records_step(accv, pv, parse_paintings(s@.skip(j2 as int)));
                }
                i = j2;
            },
            None => {
                match expect_at(s, j, "]") {
                    Some(j2) => {
                        proof {
                            assert(parse_paintings(s_i) == Some((seq![pv], s@.skip(j2 as int))));
                            assert(accv + seq![pv] =~= accv.push(pv));
                        }
                        return Some((acc, j2));
                    },
                    None => {
                        return None;
                    },
                }
            },
        }
    }
}

impl PaintingsList {
    /// Serialize the manifest to its JSON wire form.
    pub fn to_json(&self) -> (r: String)
        ensures
            r@ == manifest_json(self@),
    {
        let mut out = String::new();
        out.append("{\"$schema\":\"");
        escape_into(&mut out, self.schema.as_str());
        out.append("\",\"version\":\"");
        escape_into(&mut out, self.version.as_str());
        out.append("\",\"id\":\"");
        escape_into(&mut out, self.id.as_str());
        out.append("\",\"name\":\"");
        escape_into(&mut out, self.name.as_str());
        out.append("\",\"description\":\"");
        escape_into(&mut out, self.description.as_str());
        out.append("\",\"paintings\":[");
        let ghost head = out@;
        let n: usize = self.paintings.len();
        let mut i: usize = 0;
        while i < n
            invariant
                n == self.paintings@.len(),
                i <= n,
                out@ == head + paintings_json(self@.paintings.take(i as int)),
            decreases n - i,
        {
            let ghost done = self@.paintings.take(i as int);
            if i > 0 {
                out.append(",");
            }
            painting_into(&mut out, &self.paintings[i]);
            proof {
                lemma_paintings_json_push(done, self@.paintings[i as int]);
                assert(self@.paintings.take(i + 1) =~= done.push(self@.paintings[i as int]));
                assert(out@ =~= head + paintings_json(self@.paintings.take(i + 1)));
            }
            i = i + 1;
        }
        out.append("]}");
        proof {
            assert(self@.paintings.take(n as int) =~= self@.paintings);
            assert(out@ =~= manifest_json(self@));
        }
        out
    }

    /// Deserialize a manifest from its JSON wire form; `None` unless the
    /// input is exactly one encoded manifest.
    pub fn from_json(s: &str) -> (r: Option<PaintingsList>)
        ensures
            r is None <==> parse_manifest(s@) is None,
            r matches Some(m) ==> parse_manifest(s@) == Some(m@),
    {
        let n: usize = s.unicode_len();
        proof {
            assert(s@.skip(0) =~= s@);
        }
        let i1 = match expect_at(s, 0, "{\"$schema\":\"") {
            Some(j) => j,
            None => {
                return None;
            },
        };
        let (schema, i2) = match scan_string_at(s, i1) {
            Some(p) => p,
            None => {
                return None;
            },
        };
        let i3 = match expect_at(s, i2, ",\"version\":\"") {
            Some(j) => j,
            None => {
                return None;
            },
        };
        let (version, i4) = match scan_string_at(s, i3) {
            Some(p) => p,
            None => {
                return None;
            },
        };
        let i5 = match expect_at(s, i4, ",\"id\":\"") {
            Some(j) => j,
            None => {
                return None;
            },
        };
        let (id, i6) = match scan_string_at(s, i5) {
            Some(p) => p,
            None => {
                return None;
            },
        };
        let i7 = match expect_at(s, i6, ",\"name\":\"") {
            Some(j) => j,
            None => {
                return None;
            },
        };
        let (name, i8) = match scan_string_at(s, i7) {
            Some(p) => p,
            None => {
                return None;
            },
        };
        let i9 = match expect_at(s, i8, ",\"description\":\"") {
            Some(j) => j,
            None => {
                return None;
            },
        };
        let (description, i10) = match scan_string_at(s, i9) {
            Some(p) => p,
            None => {
                return None;
            },
        };
        let i11 = match expect_at(s, i10, ",\"paintings\":[") {
            Some(j) => j,
            None => {
                return None;
            },
        };
        let (paintings, i12) = match parse_paintings_at(s, i11) {
            Some(p) => p,
            None => {
                return None;
            },
        };
        let i13 = match expect_at(s, i12, "}") {
            Some(j) => j,
            None => {
                return None;
            },
        };
        if i13 < n {
            proof {
                assert(s@.skip(i13 as int).len() > 0);
            }
            return None;
        }
        let list = PaintingsList { schema, version, id, name, description, paintings };
        proof {
            assert(s@.skip(i13 as int).len() == 0);
            assert(parse_manifest(s@) == Some(list@));
        }
        Some(list)
    }
}

} // verus!
