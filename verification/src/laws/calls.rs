//! The names of functions in a text, and the bytes between quotes.
use vstd::prelude::*;
use vstd::utf8::*;
#[allow(unused_imports)]
use crate::assembly::{
    byte_text, hex_digit, is_plain, is_plain_char, is_taken, say, say_bytes, say_name, Page,
};
#[allow(unused_imports)]
use crate::laws::emitted::said_on;
#[allow(unused_imports)]
use crate::laws::lines::{
    in_word, lemma_append, lemma_one, lemma_say, page_read, parts_words, reading, Line, Read,
};

verus! {

// Bytes between quotes.

/// The number that a hexadecimal digit is.
pub open spec fn hex_value(c: char) -> int {
    if '0' <= c <= '9' {
        c as int - '0' as int
    } else {
        c as int - 'A' as int + 10
    }
}

/// The bytes that a text between quotes stands for: a backslash and two digits are the byte
/// with that number, and any other character is itself.
pub open spec fn bytes_written(s: Seq<char>) -> Seq<u8>
    decreases s.len(),
{
    if s.len() == 0 {
        Seq::empty()
    } else if s[0] == '\\' && s.len() >= 3 {
        seq![(hex_value(s[1]) * 16 + hex_value(s[2])) as u8] + bytes_written(s.skip(3))
    } else {
        seq![s[0] as u8] + bytes_written(s.skip(1))
    }
}

/// What is written for bytes, from the `i`th on.
pub open spec fn bytes_text(bytes: Seq<u8>, i: int) -> Seq<char>
    decreases bytes.len() - i,
{
    if !(0 <= i < bytes.len()) {
        Seq::empty()
    } else {
        byte_text(bytes[i]) + bytes_text(bytes, i + 1)
    }
}

pub proof fn lemma_say_bytes(p: Page, bytes: Seq<u8>, i: int)
    ensures
        say_bytes(p, bytes, i) == say(p, bytes_text(bytes, i)),
    decreases bytes.len() - i,
{
    if 0 <= i < bytes.len() {
        lemma_say_bytes(say(p, byte_text(bytes[i])), bytes, i + 1);
    }
    assert(say_bytes(p, bytes, i).text =~= say(p, bytes_text(bytes, i)).text);
}

/// Bytes are read from between quotes as they were written there.
pub proof fn bytes_are_read_as_they_are_written(bytes: Seq<u8>, i: int)
    requires
        0 <= i <= bytes.len(),
    ensures
        bytes_written(bytes_text(bytes, i)) == bytes.skip(i),
    decreases bytes.len() - i,
{
    if i < bytes.len() {
        bytes_are_read_as_they_are_written(bytes, i + 1);
        let b = bytes[i];
        let t = byte_text(b);
        let rest = bytes_text(bytes, i + 1);
        let s = t + rest;
        assert(s.skip(t.len() as int) =~= rest);
        assert(bytes.skip(i) =~= seq![b] + bytes.skip(i + 1));
        if 32 <= b <= 126 && b != 34 && b != 92 {
            assert(s[0] == b as char);
            assert(s[0] != '\\');
            assert((b as char) as u8 == b);
        } else {
            assert(s[0] == '\\' && s[1] == hex_digit(b as int / 16) && s[2] == hex_digit(
                b as int % 16,
            ));
            lemma_hex(b as int / 16);
            lemma_hex(b as int % 16);
        }
    } else {
        assert(bytes.skip(i) =~= Seq::empty());
    }
}

proof fn lemma_hex(n: int)
    requires
        0 <= n < 16,
    ensures
        hex_value(hex_digit(n)) == n,
        hex_digit(n) != '"',
        hex_digit(n) != '\\',
{
}

/// There is no quote between the quotes.
pub proof fn lemma_no_quote(bytes: Seq<u8>, i: int)
    ensures
        forall|k: int| 0 <= k < bytes_text(bytes, i).len() ==> #[trigger] bytes_text(bytes, i)[k] != '"',
    decreases bytes.len() - i,
{
    if 0 <= i < bytes.len() {
        lemma_no_quote(bytes, i + 1);
        let b = bytes[i];
        let t = byte_text(b);
        lemma_hex(b as int / 16);
        lemma_hex(b as int % 16);
        assert forall|k: int| 0 <= k < bytes_text(bytes, i).len() implies #[trigger] bytes_text(
            bytes,
            i,
        )[k] != '"' by {
            if k < t.len() {
                assert(bytes_text(bytes, i)[k] == t[k]);
            } else {
                assert(bytes_text(bytes, i)[k] == bytes_text(bytes, i + 1)[k - t.len()]);
            }
        }
    }
}

/// What is between quotes belongs to the word.
proof fn lemma_quoted(r: Read, s: Seq<char>)
    requires
        r.quoted,
        forall|k: int| 0 <= k < s.len() ==> #[trigger] s[k] != '"',
    ensures
        reading(r, s) == (Read { cur: r.cur + s, ..r }),
    decreases s.len(),
{
    if s.len() == 0 {
        assert(r.cur + s =~= r.cur);
    } else {
        let front = s.drop_last();
        assert forall|k: int| 0 <= k < front.len() implies #[trigger] front[k] != '"' by {
            assert(front[k] == s[k]);
        }
        lemma_quoted(r, front);
        assert(s[s.len() - 1] != '"');
        assert((r.cur + front).push(s.last()) =~= r.cur + s);
    }
}

// Names of functions.

/// What is written for the name of a function of the program.
pub open spec fn name_text(name: Seq<char>) -> Seq<char> {
    if is_taken(name) {
        "\"fn."@ + bytes_text(encode_utf8(name), 0) + "\""@
    } else if is_plain(name) {
        name
    } else {
        "\""@ + bytes_text(encode_utf8(name), 0) + "\""@
    }
}

/// The word for a function of the program.
pub open spec fn fn_word(name: Seq<char>) -> Seq<char> {
    "@"@ + name_text(name)
}

pub proof fn lemma_say_name(p: Page, name: Seq<char>)
    ensures
        say_name(p, name) == say(p, name_text(name)),
{
    let bytes = encode_utf8(name);
    lemma_say_bytes(say(p, "\"fn."@), bytes, 0);
    lemma_say_bytes(say(p, "\""@), bytes, 0);
    assert(say_name(p, name).text =~= say(p, name_text(name)).text);
}

pub proof fn lemma_in_quotes(
    lines: Seq<Line>,
    w: Line,
    cur: Seq<char>,
    start: Seq<char>,
    t: Seq<char>,
)
    requires
        start.len() > 0,
        start[0] == '"',
        forall|k: int| 1 <= k < start.len() ==> #[trigger] start[k] != '"',
        forall|k: int| 0 <= k < t.len() ==> #[trigger] t[k] != '"',
    ensures
        reading(in_word(lines, w, cur), start + t + "\""@) == in_word(
            lines,
            w,
            cur + (start + t + "\""@),
        ),
{
    reveal_strlit("\"");
    let r = in_word(lines, w, cur);
    let q = seq!['"'];
    let body = start.skip(1) + t;
    assert("\""@ =~= q);
    assert(start + t + "\""@ =~= q + body + q);
    lemma_append(r, q + body, q);
    lemma_append(r, q, body);
    lemma_one(r, '"');
    let r1 = Read { cur: cur.push('"'), quoted: true, ..r };
    assert forall|k: int| 0 <= k < body.len() implies #[trigger] body[k] != '"' by {
        if k < start.len() - 1 {
            assert(body[k] == start[k + 1]);
        } else {
            assert(body[k] == t[k - (start.len() - 1)]);
        }
    }
    lemma_quoted(r1, body);
    lemma_one(Read { cur: cur.push('"') + body, quoted: true, ..r }, '"');
    assert((cur.push('"') + body).push('"') =~= cur + (start + t + "\""@));
}

pub proof fn lemma_name_word(p: Page, lines: Seq<Line>, w: Line, name: Seq<char>)
    requires
        page_read(p) == in_word(lines, w, "@"@),
    ensures
        page_read(say_name(p, name)) == in_word(lines, w, fn_word(name)),
        say_name(p, name).strs == p.strs,
{
    lemma_say_name(p, name);
    let bytes = encode_utf8(name);
    let t = bytes_text(bytes, 0);
    lemma_no_quote(bytes, 0);
    lemma_say(p, name_text(name));
    reveal_strlit("\"fn.");
    reveal_strlit("\"");
    if is_taken(name) {
        lemma_in_quotes(lines, w, "@"@, "\"fn."@, t);
    } else if is_plain(name) {
        assert forall|i: int| 0 <= i < name.len() implies !parts_words(#[trigger] name[i])
            && name[i] != '\n' && name[i] != '"' by {
            assert(is_plain_char(name[i]));
        }
        said_on(p, lines, w, "@"@, name);
    } else {
        lemma_in_quotes(lines, w, "@"@, "\""@, t);
    }
}

/// A name that starts with `fn.`, as none does that is an identifier.
pub open spec fn starts_fn(name: Seq<char>) -> bool {
    name.len() >= 3 && name[0] == 'f' && name[1] == 'n' && name[2] == '.'
}

/// Functions of two names are written in two ways.
pub proof fn names_are_told_apart(a: Seq<char>, b: Seq<char>)
    requires
        !starts_fn(a),
        !starts_fn(b),
        fn_word(a) == fn_word(b),
    ensures
        a == b,
{
    reveal_strlit("@");
    reveal_strlit("\"fn.");
    reveal_strlit("\"");
    let ta = name_text(a);
    let tb = name_text(b);
    assert(ta =~= fn_word(a).skip(1));
    assert(tb =~= fn_word(b).skip(1));
    assert(ta == tb);
    let x = bytes_text(encode_utf8(a), 0);
    let y = bytes_text(encode_utf8(b), 0);
    lemma_plain_start(a);
    lemma_plain_start(b);
    if is_taken(a) && is_taken(b) {
        assert(x =~= ta.subrange(4, ta.len() - 1));
        assert(y =~= tb.subrange(4, tb.len() - 1));
        lemma_same_bytes(a, b);
    } else if !is_taken(a) && !is_taken(b) && !is_plain(a) && !is_plain(b) {
        assert(x =~= ta.subrange(1, ta.len() - 1));
        assert(y =~= tb.subrange(1, tb.len() - 1));
        lemma_same_bytes(a, b);
    } else if !is_taken(a) && is_plain(a) {
        if is_taken(b) || !is_plain(b) {
            assert(tb[0] == '"');
        }
    } else if !is_taken(b) && is_plain(b) {
        assert(ta[0] == '"');
    } else if is_taken(a) {
        lemma_not_fn(b, a);
    } else {
        lemma_not_fn(a, b);
    }
}

proof fn lemma_plain_start(a: Seq<char>)
    ensures
        is_plain(a) && a.len() > 0 ==> a[0] != '"',
{
    if is_plain(a) && a.len() > 0 {
        assert(is_plain_char(a[0]));
    }
}

proof fn lemma_same_bytes(a: Seq<char>, b: Seq<char>)
    requires
        bytes_text(encode_utf8(a), 0) == bytes_text(encode_utf8(b), 0),
    ensures
        a == b,
{
    let x = encode_utf8(a);
    let y = encode_utf8(b);
    bytes_are_read_as_they_are_written(x, 0);
    bytes_are_read_as_they_are_written(y, 0);
    assert(x.skip(0) =~= x);
    assert(y.skip(0) =~= y);
    encode_utf8_decode_utf8(a);
    encode_utf8_decode_utf8(b);
}


/// `b` is written in quotes, and `a` behind `fn.` in quotes.
proof fn lemma_not_fn(b: Seq<char>, a: Seq<char>)
    requires
        "\""@ + bytes_text(encode_utf8(b), 0) + "\""@ == "\"fn."@ + bytes_text(encode_utf8(a), 0)
            + "\""@,
    ensures
        starts_fn(b),
{
    reveal_strlit("\"fn.");
    reveal_strlit("\"");
    let x = bytes_text(encode_utf8(b), 0);
    let y = bytes_text(encode_utf8(a), 0);
    let front = seq!['f', 'n', '.'];
    let whole = "\""@ + x + "\""@;
    assert(x =~= whole.subrange(1, whole.len() - 1));
    assert(whole == "\"fn."@ + y + "\""@);
    assert(front + y =~= whole.subrange(1, whole.len() - 1));
    bytes_are_read_as_they_are_written(encode_utf8(b), 0);
    bytes_are_read_as_they_are_written(encode_utf8(a), 0);
    assert(encode_utf8(a).skip(0) =~= encode_utf8(a));
    assert(encode_utf8(b).skip(0) =~= encode_utf8(b));
    let z1 = seq!['n', '.'] + y;
    let z2 = seq!['.'] + y;
    assert(x[0] == 'f');
    assert(x.skip(1) =~= z1);
    assert(z1[0] == 'n');
    assert(z1.skip(1) =~= z2);
    assert(z2[0] == '.');
    assert(z2.skip(1) =~= y);
    assert(bytes_written(z2) == seq!['.' as u8] + bytes_written(y));
    assert(bytes_written(z1) == seq!['n' as u8] + bytes_written(z2));
    assert(bytes_written(x) == seq!['f' as u8] + bytes_written(z1));
    let c = front + a;
    let c1 = seq!['n', '.'] + a;
    let c2 = seq!['.'] + a;
    assert(c.drop_first() =~= c1);
    assert(c1.drop_first() =~= c2);
    assert(c2.drop_first() =~= a);
    assert(c[0] == 'f' && c1[0] == 'n' && c2[0] == '.');
    lemma_ascii('f');
    lemma_ascii('n');
    lemma_ascii('.');
    assert(encode_utf8(c2) == seq!['.' as u8] + encode_utf8(a));
    assert(encode_utf8(c1) == seq!['n' as u8] + encode_utf8(c2));
    assert(encode_utf8(c) == seq!['f' as u8] + encode_utf8(c1));
    encode_utf8_decode_utf8(b);
    encode_utf8_decode_utf8(c);
    assert(b == c);
}

proof fn lemma_ascii(c: char)
    requires
        c == 'f' || c == 'n' || c == '.',
    ensures
        encode_scalar(c as u32) == seq![c as u8],
{
    is_ascii_chars_encode_utf8(seq![c]);
    reveal_with_fuel(encode_utf8, 2);
    assert(seq![c].drop_first() =~= Seq::<char>::empty());
    assert(encode_utf8(seq![c]) =~= encode_scalar(c as u32));
}

} // verus!
