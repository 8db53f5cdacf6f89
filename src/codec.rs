//! Canonical JSON framing of ledger records: compact output, fixed field
//! order, strings escaped the way the wire format expects.
use vstd::prelude::*;
use vstd::utf8::{decode_utf8, encode_utf8, encode_utf8_decode_utf8};

verus! {

/// The hexadecimal digit for a value below sixteen, in lower case.
pub open spec fn hex_digit(v: u8) -> u8 {
    if v < 10 {
        (48 + v) as u8
    } else {
        (87 + v) as u8
    }
}

/// How one byte of a string's UTF-8 form appears between the quotes.
pub open spec fn escape_byte(b: u8) -> Seq<u8> {
    if b == 0x22 {
        seq![0x5cu8, 0x22u8]
    } else if b == 0x5c {
        seq![0x5cu8, 0x5cu8]
    } else if b == 0x08 {
        seq![0x5cu8, 0x62u8]
    } else if b == 0x09 {
        seq![0x5cu8, 0x74u8]
    } else if b == 0x0a {
        seq![0x5cu8, 0x6eu8]
    } else if b == 0x0c {
        seq![0x5cu8, 0x66u8]
    } else if b == 0x0d {
        seq![0x5cu8, 0x72u8]
    } else if b < 0x20 {
        seq![0x5cu8, 0x75u8, 0x30u8, 0x30u8, hex_digit(b / 16), hex_digit(b % 16)]
    } else {
        seq![b]
    }
}

/// The escaped body of a string given by its bytes.
pub open spec fn escaped(s: Seq<u8>) -> Seq<u8>
    decreases s.len(),
{
    if s.len() == 0 {
        Seq::empty()
    } else {
        escaped(s.drop_last()) + escape_byte(s.last())
    }
}

/// A string as a JSON string literal.
pub open spec fn quoted(s: Seq<char>) -> Seq<u8> {
    seq![0x22u8] + escaped(encode_utf8(s)) + seq![0x22u8]
}

/// The decimal digits of a natural number, without leading zeros.
pub open spec fn decimal(n: nat) -> Seq<u8>
    decreases n,
{
    if n < 10 {
        seq![(48 + n) as u8]
    } else {
        decimal(n / 10) + seq![(48 + n % 10) as u8]
    }
}

/// The string literals of a list, separated by commas, without brackets.
pub open spec fn joined(items: Seq<Seq<char>>) -> Seq<u8>
    decreases items.len(),
{
    if items.len() == 0 {
        Seq::empty()
    } else if items.len() == 1 {
        quoted(items[0])
    } else {
        joined(items.drop_last()) + seq![0x2cu8] + quoted(items.last())
    }
}

/// A list of strings as a JSON array.
pub open spec fn string_array(items: Seq<Seq<char>>) -> Seq<u8> {
    seq![0x5bu8] + joined(items) + seq![0x5du8]
}

/// Equal sequences stay equal once a common prefix is dropped.
pub proof fn lemma_drop_prefix(k: Seq<u8>, a: Seq<u8>, b: Seq<u8>)
    requires
        k + a == k + b,
    ensures
        a == b,
{
    assert(a =~= (k + a).subrange(k.len() as int, (k + a).len() as int));
    assert(b =~= (k + b).subrange(k.len() as int, (k + b).len() as int));
}

proof fn lemma_escaped_front(s: Seq<u8>)
    requires
        s.len() > 0,
    ensures
        escaped(s) == escape_byte(s[0]) + escaped(s.drop_first()),
    decreases s.len(),
{
    if s.len() == 1 {
        assert(s.drop_last() =~= Seq::<u8>::empty());
        assert(s.drop_first() =~= Seq::<u8>::empty());
        assert(escaped(s) =~= escape_byte(s[0]) + escaped(s.drop_first()));
    } else {
        lemma_escaped_front(s.drop_last());
        assert(s.drop_first().drop_last() =~= s.drop_last().drop_first());
        assert(s.drop_first().last() == s.last());
        assert(escaped(s) =~= escape_byte(s[0]) + escaped(s.drop_first()));
    }
}

proof fn lemma_escape_byte_shape(b: u8)
    ensures
        escape_byte(b).len() == 1 || escape_byte(b).len() == 2 || escape_byte(b).len() == 6,
        escape_byte(b)[0] != 0x22,
        escape_byte(b).len() == 1 <==> escape_byte(b)[0] != 0x5c,
        escape_byte(b).len() == 6 ==> escape_byte(b)[1] == 0x75,
        escape_byte(b).len() == 2 ==> escape_byte(b)[1] != 0x75,
{
}

spec fn hex_value(d: u8) -> int {
    if d < 58 {
        d - 48
    } else {
        d - 87
    }
}

/// Reads back the byte that an escape stands for.
spec fn unescape(e: Seq<u8>) -> int {
    if e.len() == 1 {
        e[0] as int
    } else if e.len() == 2 {
        if e[1] == 0x62 {
            8
        } else if e[1] == 0x74 {
            9
        } else if e[1] == 0x6e {
            10
        } else if e[1] == 0x66 {
            12
        } else if e[1] == 0x72 {
            13
        } else {
            e[1] as int
        }
    } else {
        hex_value(e[4]) * 16 + hex_value(e[5])
    }
}

proof fn lemma_unescape(b: u8)
    ensures
        unescape(escape_byte(b)) == b as int,
{
    if b < 0x20 && b != 0x08 && b != 0x09 && b != 0x0a && b != 0x0c && b != 0x0d {
        let hi = b / 16;
        let lo = b % 16;
        assert(b as int == 16 * (hi as int) + lo as int);
        assert(hex_value(hex_digit(hi)) == hi as int);
        assert(hex_value(hex_digit(lo)) == lo as int);
    }
}

proof fn lemma_escape_byte_injective(a: u8, b: u8)
    requires
        escape_byte(a) == escape_byte(b),
    ensures
        a == b,
{
    lemma_unescape(a);
    lemma_unescape(b);
}

proof fn lemma_escape_prefix(a: u8, b: u8, s1: Seq<u8>, s2: Seq<u8>)
    requires
        escape_byte(a) + s1 == escape_byte(b) + s2,
    ensures
        a == b,
        s1 == s2,
{
    let ea = escape_byte(a);
    let eb = escape_byte(b);
    lemma_escape_byte_shape(a);
    lemma_escape_byte_shape(b);
    assert((ea + s1)[0] == ea[0] && (eb + s2)[0] == eb[0]);
    if ea.len() > 1 && eb.len() > 1 {
        assert((ea + s1)[1] == ea[1] && (eb + s2)[1] == eb[1]);
    }
    assert(ea.len() == eb.len());
    assert forall|k: int| 0 <= k < ea.len() implies ea[k] == eb[k] by {
        assert((ea + s1)[k] == ea[k] && (eb + s2)[k] == eb[k]);
    }
    assert(ea =~= eb);
    lemma_escape_byte_injective(a, b);
    lemma_drop_prefix(ea, s1, s2);
}

/// An escaped body ends at the first quote that follows it.
proof fn lemma_escaped_prefix(x: Seq<u8>, y: Seq<u8>, r1: Seq<u8>, r2: Seq<u8>)
    requires
        escaped(x) + (seq![0x22u8] + r1) == escaped(y) + (seq![0x22u8] + r2),
    ensures
        x == y,
        r1 == r2,
    decreases x.len(),
{
    let q = seq![0x22u8];
    if x.len() == 0 {
        if y.len() > 0 {
            lemma_escaped_front(y);
            lemma_escape_byte_shape(y[0]);
            assert((escaped(y) + (q + r2))[0] == escape_byte(y[0])[0]);
            assert((escaped(x) + (q + r1))[0] == 0x22);
        }
        assert(escaped(x) =~= Seq::<u8>::empty());
        assert(escaped(y) =~= Seq::<u8>::empty());
        assert(q + r1 =~= escaped(x) + (q + r1));
        assert(q + r2 =~= escaped(y) + (q + r2));
        lemma_drop_prefix(q, r1, r2);
        assert(x =~= y);
    } else if y.len() == 0 {
        lemma_escaped_front(x);
        lemma_escape_byte_shape(x[0]);
        assert((escaped(x) + (q + r1))[0] == escape_byte(x[0])[0]);
        assert((escaped(y) + (q + r2))[0] == 0x22);
    } else {
        lemma_escaped_front(x);
        lemma_escaped_front(y);
        let tx = escaped(x.drop_first()) + (q + r1);
        let ty = escaped(y.drop_first()) + (q + r2);
        assert(escaped(x) + (q + r1) =~= escape_byte(x[0]) + tx);
        assert(escaped(y) + (q + r2) =~= escape_byte(y[0]) + ty);
        lemma_escape_prefix(x[0], y[0], tx, ty);
        lemma_escaped_prefix(x.drop_first(), y.drop_first(), r1, r2);
        assert(x =~= seq![x[0]] + x.drop_first());
        assert(y =~= seq![y[0]] + y.drop_first());
    }
}

/// A string literal ends at its closing quote: what comes before and after
/// it is read back exactly.
pub proof fn lemma_quoted_prefix(s1: Seq<char>, s2: Seq<char>, r1: Seq<u8>, r2: Seq<u8>)
    requires
        quoted(s1) + r1 == quoted(s2) + r2,
    ensures
        s1 == s2,
        r1 == r2,
{
    let q = seq![0x22u8];
    let e1 = escaped(encode_utf8(s1));
    let e2 = escaped(encode_utf8(s2));
    assert(quoted(s1) + r1 =~= q + (e1 + (q + r1)));
    assert(quoted(s2) + r2 =~= q + (e2 + (q + r2)));
    lemma_drop_prefix(q, e1 + (q + r1), e2 + (q + r2));
    lemma_escaped_prefix(encode_utf8(s1), encode_utf8(s2), r1, r2);
    encode_utf8_decode_utf8(s1);
    encode_utf8_decode_utf8(s2);
}

pub open spec fn is_digit(b: u8) -> bool {
    48 <= b <= 57
}

proof fn lemma_decimal_digits(n: nat)
    ensures
        decimal(n).len() >= 1,
        n < 10 <==> decimal(n).len() == 1,
        forall|k: int| 0 <= k < decimal(n).len() ==> is_digit(#[trigger] decimal(n)[k]),
    decreases n,
{
    if n >= 10 {
        lemma_decimal_digits(n / 10);
    }
}

proof fn lemma_decimal_injective(a: nat, b: nat)
    requires
        decimal(a) == decimal(b),
    ensures
        a == b,
    decreases a,
{
    lemma_decimal_digits(a);
    lemma_decimal_digits(b);
    if a >= 10 && b >= 10 {
        assert(decimal(a).drop_last() =~= decimal(a / 10));
        assert(decimal(b).drop_last() =~= decimal(b / 10));
        lemma_decimal_injective(a / 10, b / 10);
        assert(decimal(a).last() == decimal(b).last());
        assert(decimal(a).last() == (48 + a % 10) as u8);
        assert(decimal(b).last() == (48 + b % 10) as u8);
        assert(0 <= a % 10 < 10 && 0 <= b % 10 < 10);
        assert(a % 10 == b % 10);
        assert(a == 10 * (a / 10) + a % 10);
        assert(b == 10 * (b / 10) + b % 10);
    } else if a < 10 && b < 10 {
        assert(decimal(a)[0] == decimal(b)[0]);
        assert(decimal(a)[0] == (48 + a) as u8 && decimal(b)[0] == (48 + b) as u8);
    } else {
        assert(decimal(a).len() == decimal(b).len());
    }
}

/// A number's digits end where the first byte that is no digit stands.
pub proof fn lemma_decimal_prefix(a: nat, b: nat, r1: Seq<u8>, r2: Seq<u8>)
    requires
        decimal(a) + r1 == decimal(b) + r2,
        r1.len() > 0 && !is_digit(r1[0]),
        r2.len() > 0 && !is_digit(r2[0]),
    ensures
        a == b,
        r1 == r2,
{
    let da = decimal(a);
    let db = decimal(b);
    lemma_decimal_digits(a);
    lemma_decimal_digits(b);
    if da.len() < db.len() {
        assert((da + r1)[da.len() as int] == r1[0]);
        assert((db + r2)[da.len() as int] == db[da.len() as int]);
    } else if db.len() < da.len() {
        assert((db + r2)[db.len() as int] == r2[0]);
        assert((da + r1)[db.len() as int] == da[db.len() as int]);
    }
    assert forall|k: int| 0 <= k < da.len() implies da[k] == db[k] by {
        assert((da + r1)[k] == da[k] && (db + r2)[k] == db[k]);
    }
    assert(da =~= db);
    lemma_decimal_injective(a, b);
    lemma_drop_prefix(da, r1, r2);
}

proof fn lemma_joined_front(items: Seq<Seq<char>>)
    requires
        items.len() >= 2,
    ensures
        joined(items) == quoted(items[0]) + (seq![0x2cu8] + joined(items.drop_first())),
    decreases items.len(),
{
    let df = items.drop_first();
    if items.len() == 2 {
        assert(joined(items.drop_last()) == quoted(items[0]));
        assert(joined(df) == quoted(items[1]));
    } else {
        lemma_joined_front(items.drop_last());
        assert(df.drop_last() =~= items.drop_last().drop_first());
        assert(df.last() == items.last());
    }
    assert(joined(items) =~= quoted(items[0]) + (seq![0x2cu8] + joined(df)));
}

/// The first byte of a non-empty list body is the opening quote of its
/// first string.
proof fn lemma_joined_head(items: Seq<Seq<char>>)
    requires
        items.len() >= 1,
    ensures
        joined(items).len() > 0,
        joined(items)[0] == 0x22,
{
    if items.len() >= 2 {
        lemma_joined_front(items);
    }
}

/// The strings of a list body are read back exactly, up to the closing
/// bracket, and so is what follows it.
pub proof fn lemma_joined_prefix(xs: Seq<Seq<char>>, ys: Seq<Seq<char>>, r1: Seq<u8>, r2: Seq<u8>)
    requires
        joined(xs) + (seq![0x5du8] + r1) == joined(ys) + (seq![0x5du8] + r2),
    ensures
        xs == ys,
        r1 == r2,
    decreases xs.len(),
{
    let cb = seq![0x5du8];
    let cm = seq![0x2cu8];
    if xs.len() == 0 || ys.len() == 0 {
        if xs.len() > 0 {
            lemma_joined_head(xs);
            assert((joined(xs) + (cb + r1))[0] == 0x22);
            assert((joined(ys) + (cb + r2))[0] == 0x5d);
        }
        if ys.len() > 0 {
            lemma_joined_head(ys);
            assert((joined(ys) + (cb + r2))[0] == 0x22);
            assert((joined(xs) + (cb + r1))[0] == 0x5d);
        }
        assert(joined(xs) + (cb + r1) =~= cb + r1);
        assert(joined(ys) + (cb + r2) =~= cb + r2);
        lemma_drop_prefix(cb, r1, r2);
        assert(xs =~= ys);
    } else {
        let tx = if xs.len() == 1 {
            cb + r1
        } else {
            cm + (joined(xs.drop_first()) + (cb + r1))
        };
        let ty = if ys.len() == 1 {
            cb + r2
        } else {
            cm + (joined(ys.drop_first()) + (cb + r2))
        };
        if xs.len() >= 2 {
            lemma_joined_front(xs);
        }
        if ys.len() >= 2 {
            lemma_joined_front(ys);
        }
        assert(joined(xs) + (cb + r1) =~= quoted(xs[0]) + tx);
        assert(joined(ys) + (cb + r2) =~= quoted(ys[0]) + ty);
        lemma_quoted_prefix(xs[0], ys[0], tx, ty);
        assert(tx[0] == ty[0]);
        if xs.len() == 1 && ys.len() == 1 {
            lemma_drop_prefix(cb, r1, r2);
        } else if xs.len() >= 2 && ys.len() >= 2 {
            lemma_drop_prefix(cm, joined(xs.drop_first()) + (cb + r1), joined(ys.drop_first()) + (cb + r2));
            lemma_joined_prefix(xs.drop_first(), ys.drop_first(), r1, r2);
        }
        assert(xs =~= seq![xs[0]] + xs.drop_first());
        assert(ys =~= seq![ys[0]] + ys.drop_first());
    }
}

/// Appends the escaped form of a byte.
fn push_escaped_byte(out: &mut Vec<u8>, b: u8)
    ensures
        final(out)@ == old(out)@ + escape_byte(b),
{
    let start = Ghost(out@);
    if b == 0x22 || b == 0x5c {
        out.push(0x5c);
        out.push(b);
    } else if b == 0x08 {
        out.push(0x5c);
        out.push(0x62);
    } else if b == 0x09 {
        out.push(0x5c);
        out.push(0x74);
    } else if b == 0x0a {
        out.push(0x5c);
        out.push(0x6e);
    } else if b == 0x0c {
        out.push(0x5c);
        out.push(0x66);
    } else if b == 0x0d {
        out.push(0x5c);
        out.push(0x72);
    } else if b < 0x20 {
        let hi: u8 = b / 16;
        let lo: u8 = b % 16;
        out.push(0x5c);
        out.push(0x75);
        out.push(0x30);
        out.push(0x30);
        out.push(if hi < 10 { 48 + hi } else { 87 + hi });
        out.push(if lo < 10 { 48 + lo } else { 87 + lo });
    } else {
        out.push(b);
    }
    assert(out@ =~= start@ + escape_byte(b));
}

/// Appends a string as a JSON string literal.
pub fn push_quoted(out: &mut Vec<u8>, s: &str)
    ensures
        final(out)@ == old(out)@ + quoted(s@),
{
    let bytes = s.as_bytes();
    let ghost start = out@;
    out.push(0x22);
    let mut i: usize = 0;
    while i < bytes.len()
        invariant
            i <= bytes@.len(),
            bytes@ == encode_utf8(s@),
            out@ == start + seq![0x22u8] + escaped(bytes@.take(i as int)),
        decreases bytes@.len() - i,
    {
        assert(bytes@.take(i + 1).drop_last() =~= bytes@.take(i as int));
        push_escaped_byte(out, bytes[i]);
        i = i + 1;
        assert(out@ =~= start + seq![0x22u8] + escaped(bytes@.take(i as int)));
    }
    assert(bytes@.take(i as int) =~= bytes@);
    out.push(0x22);
    assert(out@ =~= start + quoted(s@));
}

/// Appends the decimal digits of a number.
pub fn push_decimal(out: &mut Vec<u8>, n: u64)
    ensures
        final(out)@ == old(out)@ + decimal(n as nat),
    decreases n,
{
    let ghost start = out@;
    if n >= 10 {
        push_decimal(out, n / 10);
    }
    let d: u8 = (n % 10) as u8;
    out.push(48 + d);
    assert(out@ =~= start + decimal(n as nat));
}

/// Appends a list of strings as a JSON array.
pub fn push_string_array(out: &mut Vec<u8>, items: &Vec<String>)
    ensures
        final(out)@ == old(out)@ + string_array(items@.map_values(|s: String| s@)),
{
    let ghost start = out@;
    let ghost views = items@.map_values(|s: String| s@);
    out.push(0x5b);
    let mut i: usize = 0;
    while i < items.len()
        invariant
            i <= items@.len(),
            views == items@.map_values(|s: String| s@),
            out@ == start + seq![0x5bu8] + joined(views.take(i as int)),
        decreases items@.len() - i,
    {
        if i > 0 {
            out.push(0x2c);
        }
        push_quoted(out, items[i].as_str());
        assert(views.take(i + 1).drop_last() =~= views.take(i as int));
        i = i + 1;
        assert(out@ =~= start + seq![0x5bu8] + joined(views.take(i as int)));
    }
    assert(views.take(i as int) =~= views);
    out.push(0x5d);
    assert(out@ =~= start + string_array(views));
}

} // verus!
