//! IPv4 addresses and their dotted-decimal text.

use crate::text::{
    chars_of, free_of, lemma_span_stops, lemma_split_first, lemma_split_len, lemma_split_whole,
    pieces, span, split, split_ranges, Delimiter,
};
use vstd::prelude::*;

verus! {

/// An IPv4 address: four octets, the first one in `a`.
#[derive(Clone, Copy, Debug, PartialEq, Eq, Hash, Structural)]
pub struct Ipv4Addr {
    pub a: u8,
    pub b: u8,
    pub c: u8,
    pub d: u8,
}

/// The character that stands for the digit `n`.
pub open spec fn digit(n: int) -> char {
    (n + 48) as char
}

/// Whether `c` is one of the ten decimal digits.
pub open spec fn is_digit(c: char) -> bool {
    48 <= c as int <= 57
}

/// The decimal text of an octet, without leading zeros.
pub open spec fn octet_text(n: u8) -> Seq<char> {
    if n < 10 {
        seq![digit(n as int)]
    } else if n < 100 {
        seq![digit(n as int / 10), digit(n as int % 10)]
    } else {
        seq![digit(n as int / 100), digit(n as int / 10 % 10), digit(n as int % 10)]
    }
}

/// The octet of which `s` is the decimal text, if there is one.
pub open spec fn parse_octet(s: Seq<char>) -> Option<u8> {
    if exists|n: u8| octet_text(n) == s {
        Some(choose|n: u8| octet_text(n) == s)
    } else {
        None
    }
}

/// The address of which `s` is the dotted-decimal text, if there is one.
pub open spec fn parse_address(s: Seq<char>) -> Option<Ipv4Addr> {
    if exists|a: Ipv4Addr| a.dotted() == s {
        Some(choose|a: Ipv4Addr| a.dotted() == s)
    } else {
        None
    }
}

impl Ipv4Addr {
    /// The dotted-decimal text of the address: its four octets in decimal, a full stop
    /// between each two.
    pub open spec fn dotted(self) -> Seq<char> {
        octet_text(self.a) + seq!['.'] + octet_text(self.b) + seq!['.'] + octet_text(self.c)
            + seq!['.'] + octet_text(self.d)
    }

    /// The address with the octets `a`, `b`, `c` and `d`, in this order.
    pub fn new(a: u8, b: u8, c: u8, d: u8) -> (r: Ipv4Addr)
        ensures
            r == (Ipv4Addr { a, b, c, d }),
    {
        Ipv4Addr { a, b, c, d }
    }

    /// The four octets, the first one first.
    pub fn octets(&self) -> (r: [u8; 4])
        ensures
            r@ == seq![self.a, self.b, self.c, self.d],
    {
        let r: [u8; 4] = [self.a, self.b, self.c, self.d];
        assert(r@ =~= seq![self.a, self.b, self.c, self.d]);
        r
    }
}

/// The text of an octet has one to three characters, all of them digits, and starts
/// with a zero only where it is the text of zero.
pub proof fn lemma_octet_text_shape(n: u8)
    ensures
        1 <= octet_text(n).len() <= 3,
        forall|i: int| 0 <= i < octet_text(n).len() ==> is_digit(#[trigger] octet_text(n)[i]),
        octet_text(n).len() > 1 ==> octet_text(n)[0] != '0',
{
}

/// No character of an octet's text is a delimiter of any class.
pub proof fn lemma_octet_text_free(n: u8, d: Delimiter)
    ensures
        free_of(octet_text(n), d),
        octet_text(n).last() != '\r',
{
    lemma_octet_text_shape(n);
    assert forall|i: int| 0 <= i < octet_text(n).len() implies !d.matches(
        #[trigger] octet_text(n)[i],
    ) by {
        assert(is_digit(octet_text(n)[i]));
    }
}

/// The number that up to three digits write.
pub open spec fn octet_value(s: Seq<char>) -> int {
    if s.len() == 1 {
        s[0] as int - 48
    } else if s.len() == 2 {
        (s[0] as int - 48) * 10 + (s[1] as int - 48)
    } else {
        (s[0] as int - 48) * 100 + (s[1] as int - 48) * 10 + (s[2] as int - 48)
    }
}

/// The text of an octet writes that octet.
pub proof fn lemma_octet_value(n: u8)
    ensures
        octet_value(octet_text(n)) == n,
{
}

/// Two octets with the same text are the same.
pub proof fn lemma_octet_text_injective(m: u8, n: u8)
    requires
        octet_text(m) == octet_text(n),
    ensures
        m == n,
{
    lemma_octet_value(m);
    lemma_octet_value(n);
}

/// The text of an octet is read back as that octet.
pub proof fn lemma_parse_octet_text(n: u8)
    ensures
        parse_octet(octet_text(n)) == Some(n),
{
    let m = choose|m: u8| octet_text(m) == octet_text(n);
    lemma_octet_text_injective(m, n);
}

/// The full stops cut the text of an address into the texts of its four octets.
pub proof fn lemma_dotted_split(a: Ipv4Addr)
    ensures
        split(a.dotted(), Delimiter::Dot) == seq![
            octet_text(a.a),
            octet_text(a.b),
            octet_text(a.c),
            octet_text(a.d),
        ],
{
    let d = Delimiter::Dot;
    let (o0, o1, o2, o3) = (octet_text(a.a), octet_text(a.b), octet_text(a.c), octet_text(a.d));
    lemma_octet_text_free(a.a, d);
    lemma_octet_text_free(a.b, d);
    lemma_octet_text_free(a.c, d);
    lemma_octet_text_free(a.d, d);
    let r2 = o2 + seq!['.'] + o3;
    let r1 = o1 + seq!['.'] + r2;
    assert(a.dotted() =~= o0 + seq!['.'] + r1);
    lemma_split_first(o0, '.', r1, d);
    lemma_split_first(o1, '.', r2, d);
    lemma_split_first(o2, '.', o3, d);
    lemma_split_whole(o3, d);
    assert(split(a.dotted(), d) =~= seq![o0, o1, o2, o3]);
}

/// Two addresses with the same text are the same.
pub proof fn lemma_dotted_injective(a: Ipv4Addr, b: Ipv4Addr)
    requires
        a.dotted() == b.dotted(),
    ensures
        a == b,
{
    lemma_dotted_split(a);
    lemma_dotted_split(b);
    let p = split(a.dotted(), Delimiter::Dot);
    assert(p[0] == octet_text(a.a) && p[0] == octet_text(b.a));
    assert(p[1] == octet_text(a.b) && p[1] == octet_text(b.b));
    assert(p[2] == octet_text(a.c) && p[2] == octet_text(b.c));
    assert(p[3] == octet_text(a.d) && p[3] == octet_text(b.d));
    lemma_octet_text_injective(a.a, b.a);
    lemma_octet_text_injective(a.b, b.b);
    lemma_octet_text_injective(a.c, b.c);
    lemma_octet_text_injective(a.d, b.d);
}

/// The text of an address is read back as that address.
pub proof fn lemma_parse_dotted(a: Ipv4Addr)
    ensures
        parse_address(a.dotted()) == Some(a),
{
    let b = choose|b: Ipv4Addr| b.dotted() == a.dotted();
    lemma_dotted_injective(a, b);
}

/// A text that full stops cut into four pieces is those pieces with a full stop between
/// each two.
proof fn lemma_four_pieces(s: Seq<char>)
    requires
        split(s, Delimiter::Dot).len() == 4,
    ensures
        s == split(s, Delimiter::Dot)[0] + seq!['.'] + split(s, Delimiter::Dot)[1] + seq!['.']
            + split(s, Delimiter::Dot)[2] + seq!['.'] + split(s, Delimiter::Dot)[3],
{
    let d = Delimiter::Dot;
    let p = split(s, d);
    lemma_span_stops(s, d);
    let k0 = span(s, d) as int;
    let s1 = s.skip(k0 + 1);
    assert(p =~= seq![s.take(k0)] + split(s1, d));
    lemma_span_stops(s1, d);
    let k1 = span(s1, d) as int;
    let s2 = s1.skip(k1 + 1);
    assert(split(s1, d) =~= seq![s1.take(k1)] + split(s2, d));
    lemma_span_stops(s2, d);
    let k2 = span(s2, d) as int;
    let s3 = s2.skip(k2 + 1);
    assert(split(s2, d) =~= seq![s2.take(k2)] + split(s3, d));
    lemma_span_stops(s3, d);
    if span(s3, d) < s3.len() {
        lemma_split_len(s3.skip(span(s3, d) as int + 1), d);
    }
    assert(split(s3, d) =~= seq![s3]);
    assert(p[0] == s.take(k0));
    assert(p[1] == split(s1, d)[0]);
    assert(p[2] == split(s2, d)[0]);
    assert(p[3] == s3);
    assert(s2 =~= s2.take(k2) + seq!['.'] + s3);
    assert(s1 =~= s1.take(k1) + seq!['.'] + s2);
    assert(s =~= s.take(k0) + seq!['.'] + s1);
    assert(s =~= p[0] + seq!['.'] + p[1] + seq!['.'] + p[2] + seq!['.'] + p[3]);
}

/// What the pieces between the full stops say of a text: it is the text of an address
/// where there are four of them and each is the text of an octet.
pub proof fn lemma_parse_address_pieces(s: Seq<char>)
    ensures
        parse_address(s) == ({
            let p = split(s, Delimiter::Dot);
            if p.len() == 4 && parse_octet(p[0]) is Some && parse_octet(p[1]) is Some
                && parse_octet(p[2]) is Some && parse_octet(p[3]) is Some {
                Some(
                    Ipv4Addr {
                        a: parse_octet(p[0])->0,
                        b: parse_octet(p[1])->0,
                        c: parse_octet(p[2])->0,
                        d: parse_octet(p[3])->0,
                    },
                )
            } else {
                None
            }
        }),
{
    let p = split(s, Delimiter::Dot);
    if p.len() == 4 && parse_octet(p[0]) is Some && parse_octet(p[1]) is Some && parse_octet(
        p[2],
    ) is Some && parse_octet(p[3]) is Some {
        let address = Ipv4Addr {
            a: parse_octet(p[0])->0,
            b: parse_octet(p[1])->0,
            c: parse_octet(p[2])->0,
            d: parse_octet(p[3])->0,
        };
        lemma_four_pieces(s);
        assert(address.dotted() =~= s);
        lemma_parse_dotted(address);
    } else {
        assert forall|x: Ipv4Addr| x.dotted() != s by {
            lemma_dotted_split(x);
            if x.dotted() == s {
                assert(p[0] == octet_text(x.a));
                assert(p[1] == octet_text(x.b));
                assert(p[2] == octet_text(x.c));
                assert(p[3] == octet_text(x.d));
            }
        }
    }
}

/// Reads the characters from `from` to `to` as the decimal text of an octet.
pub fn parse_octet_range(chars: &[char], from: usize, to: usize) -> (r: Option<u8>)
    requires
        from <= to <= chars.len(),
    ensures
        r == parse_octet(chars@.subrange(from as int, to as int)),
{
    let ghost s = chars@.subrange(from as int, to as int);
    let n: usize = to - from;
    if n == 0 || n > 3 {
        proof {
            assert forall|m: u8| octet_text(m) != s by {
                lemma_octet_text_shape(m);
            }
        }
        return None;
    }
    let mut value: u32 = 0;
    let mut i: usize = 0;
    while i < n
        invariant
            i <= n <= 3,
            from + n == to <= chars.len(),
            s == chars@.subrange(from as int, to as int),
            forall|j: int| 0 <= j < i ==> is_digit(#[trigger] s[j]),
            i == 0 ==> value == 0,
            i > 0 ==> value == octet_value(s.take(i as int)),
        decreases n - i,
    {
        let c: char = chars[from + i];
        assert(c == s[i as int]);
        if c < '0' || c > '9' {
            proof {
                assert forall|m: u8| octet_text(m) != s by {
                    lemma_octet_text_shape(m);
                    if octet_text(m) == s {
                        assert(is_digit(octet_text(m)[i as int]));
                    }
                }
            }
            return None;
        }
        let u: u32 = c as u32;
        proof {
            let t = s.take(i + 1);
            assert(forall|j: int| 0 <= j <= i ==> t[j] == s[j]);
            if i > 0 {
                assert(forall|j: int| 0 <= j < i ==> s.take(i as int)[j] == s[j]);
            }
        }
        value = value * 10 + (u - 48);
        i += 1;
    }
    assert(s.take(n as int) =~= s);
    if n > 1 && chars[from] == '0' {
        proof {
            assert(s[0] == '0');
            assert forall|m: u8| octet_text(m) != s by {
                lemma_octet_text_shape(m);
            }
        }
        return None;
    }
    if value > 255 {
        proof {
            assert forall|m: u8| octet_text(m) != s by {
                lemma_octet_value(m);
            }
        }
        return None;
    }
    let octet: u8 = value as u8;
    proof {
        assert(octet_text(octet) =~= s);
        lemma_parse_octet_text(octet);
    }
    Some(octet)
}

/// Reads the characters from `from` to `to` as the dotted-decimal text of an address.
pub fn parse_range(chars: &[char], from: usize, to: usize) -> (r: Option<Ipv4Addr>)
    requires
        from <= to <= chars.len(),
    ensures
        r == parse_address(chars@.subrange(from as int, to as int)),
{
    let ghost s = chars@.subrange(from as int, to as int);
    let parts = split_ranges(chars, from, to, Delimiter::Dot);
    proof {
        lemma_parse_address_pieces(s);
    }
    if parts.len() != 4 {
        return None;
    }
    proof {
        let p = split(s, Delimiter::Dot);
        assert(pieces(chars@, parts@)[0] == p[0]);
        assert(pieces(chars@, parts@)[1] == p[1]);
        assert(pieces(chars@, parts@)[2] == p[2]);
        assert(pieces(chars@, parts@)[3] == p[3]);
    }
    let a = match parse_octet_range(chars, parts[0].0, parts[0].1) {
        Some(a) => a,
        None => {
            return None;
        },
    };
    let b = match parse_octet_range(chars, parts[1].0, parts[1].1) {
        Some(b) => b,
        None => {
            return None;
        },
    };
    let c = match parse_octet_range(chars, parts[2].0, parts[2].1) {
        Some(c) => c,
        None => {
            return None;
        },
    };
    let d = match parse_octet_range(chars, parts[3].0, parts[3].1) {
        Some(d) => d,
        None => {
            return None;
        },
    };
    Some(Ipv4Addr { a, b, c, d })
}

impl Ipv4Addr {
    /// Reads `text` as the dotted-decimal text of an address: four decimal octets
    /// without leading zeros, a full stop between each two, and nothing else.
    pub fn parse(text: &str) -> (r: Option<Ipv4Addr>)
        ensures
            r == parse_address(text@),
    {
        let chars = chars_of(text);
        assert(chars@.subrange(0, chars@.len() as int) =~= chars@);
        parse_range(chars.as_slice(), 0, chars.len())
    }
}

/// The text of one digit.
fn digit_str(d: u8) -> (s: &'static str)
    requires
        d < 10,
    ensures
        s@ == seq![digit(d as int)],
{
    proof {
        reveal_strlit("0");
        reveal_strlit("1");
        reveal_strlit("2");
        reveal_strlit("3");
        reveal_strlit("4");
        reveal_strlit("5");
        reveal_strlit("6");
        reveal_strlit("7");
        reveal_strlit("8");
        reveal_strlit("9");
    }
    let s = match d {
        0 => "0",
        1 => "1",
        2 => "2",
        3 => "3",
        4 => "4",
        5 => "5",
        6 => "6",
        7 => "7",
        8 => "8",
        _ => "9",
    };
    assert(s@ =~= seq![digit(d as int)]);
    s
}

/// Writes the decimal text of `n` at the end of `out`.
pub fn push_octet(out: &mut String, n: u8)
    ensures
        final(out)@ == old(out)@ + octet_text(n),
{
    if n >= 100 {
        out.append(digit_str(n / 100));
    }
    if n >= 10 {
        out.append(digit_str(n / 10 % 10));
    }
    out.append(digit_str(n % 10));
    assert(out@ =~= old(out)@ + octet_text(n));
}

impl Ipv4Addr {
    /// Writes the dotted-decimal text of the address at the end of `out`.
    pub fn write_to(&self, out: &mut String)
        ensures
            final(out)@ == old(out)@ + self.dotted(),
    {
        proof {
            reveal_strlit(".");
        }
        push_octet(out, self.a);
        out.append(".");
        push_octet(out, self.b);
        out.append(".");
        push_octet(out, self.c);
        out.append(".");
        push_octet(out, self.d);
        assert(out@ =~= old(out)@ + self.dotted());
    }

    /// The dotted-decimal text of the address.
    pub fn to_text(&self) -> (text: String)
        ensures
            text@ == self.dotted(),
    {
        let mut text = String::new();
        self.write_to(&mut text);
        assert(text@ =~= self.dotted());
        text
    }
}

} // verus!
