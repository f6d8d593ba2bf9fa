use vstd::prelude::*;
use vstd::string::*;

verus! {

/// An IPv4 address, held as its four octets in network order.
#[derive(Clone, Copy, Debug, PartialEq, Eq, Structural)]
pub struct Ipv4Addr {
    pub a: u8,
    pub b: u8,
    pub c: u8,
    pub d: u8,
}

/// The character of a decimal digit `d < 10`.
pub open spec fn digit_char(d: nat) -> char {
    if d == 0 {
        '0'
    } else if d == 1 {
        '1'
    } else if d == 2 {
        '2'
    } else if d == 3 {
        '3'
    } else if d == 4 {
        '4'
    } else if d == 5 {
        '5'
    } else if d == 6 {
        '6'
    } else if d == 7 {
        '7'
    } else if d == 8 {
        '8'
    } else {
        '9'
    }
}

pub open spec fn is_digit(c: char) -> bool {
    '0' <= c && c <= '9'
}

pub open spec fn digit_value(c: char) -> nat {
    (c as int - '0' as int) as nat
}

/// The decimal form of `n`, without leading zeros.
pub open spec fn decimal(n: nat) -> Seq<char>
    decreases n,
{
    if n < 10 {
        seq![digit_char(n)]
    } else {
        decimal(n / 10).push(digit_char(n % 10))
    }
}

/// The number that a run of decimal digits denotes.
pub open spec fn digits_value(s: Seq<char>) -> nat
    decreases s.len(),
{
    if s.len() == 0 {
        0
    } else {
        digits_value(s.drop_last()) * 10 + digit_value(s.last())
    }
}

/// The dotted-decimal text of an address, as in `127.0.0.1`.
pub open spec fn ipv4_text(x: Ipv4Addr) -> Seq<char> {
    decimal(x.a as nat) + seq!['.'] + decimal(x.b as nat) + seq!['.'] + decimal(x.c as nat)
        + seq!['.'] + decimal(x.d as nat)
}

proof fn lemma_digit_char(d: nat)
    requires
        d < 10,
    ensures
        is_digit(digit_char(d)),
        digit_value(digit_char(d)) == d,
{
}

/// The decimal form of an octet is one to three digits, and denotes it.
proof fn lemma_decimal(n: nat)
    requires
        n < 1000,
    ensures
        1 <= decimal(n).len() <= 3,
        n < 10 <==> decimal(n).len() == 1,
        n < 100 <==> decimal(n).len() <= 2,
        forall|i: int| 0 <= i < decimal(n).len() ==> #[trigger] is_digit(decimal(n)[i]),
        digits_value(decimal(n)) == n,
    decreases n,
{
    lemma_digit_char(n % 10);
    if n < 10 {
        assert(decimal(n).drop_last() =~= Seq::<char>::empty());
        assert(digits_value(Seq::<char>::empty()) == 0);
    } else {
        lemma_decimal(n / 10);
        assert(decimal(n).drop_last() =~= decimal(n / 10));
        assert(decimal(n).last() == digit_char(n % 10));
        assert(n == (n / 10) * 10 + n % 10);
        assert(digits_value(decimal(n)) == digits_value(decimal(n / 10)) * 10 + digit_value(
            digit_char(n % 10),
        ));
    }
}


/// The one-character text of a decimal digit.
fn digit_str(d: u8) -> (r: &'static str)
    requires
        d < 10,
    ensures
        r@ == seq![digit_char(d as nat)],
{
    proof {
        reveal_strlit("0");
        reveal_strlit("1");
        reveal_strlit("2");
        reveal_strlit("3");
        reveal_strlit("4");
        reveal_strlit("5");
        reveal_strlit("6");
        reveal_strlit("7");
        reveal_strlit("8");
        reveal_strlit("9");
    }
    match d {
        0 => "0",
        1 => "1",
        2 => "2",
        3 => "3",
        4 => "4",
        5 => "5",
        6 => "6",
        7 => "7",
        8 => "8",
        _ => "9",
    }
}

/// Appends the decimal form of `n` to `out`.
fn push_decimal(out: &mut String, n: u8)
    ensures
        final(out)@ == old(out)@ + decimal(n as nat),
{
    let ghost m = n as nat;
    if n >= 100 {
        out.append(digit_str(n / 100));
        assert(decimal(m / 100) == seq![digit_char(m / 100)]);
    }
    if n >= 10 {
        out.append(digit_str(n / 10 % 10));
        assert(m / 10 / 10 == m / 100);
        assert(m / 10 >= 10 ==> decimal(m / 10) =~= decimal(m / 100).push(digit_char(m / 10 % 10)));
        assert(m / 10 < 10 ==> decimal(m / 10) =~= seq![digit_char(m / 10 % 10)]);
    }
    out.append(digit_str(n % 10));
    assert(old(out)@ + decimal(m) =~= final(out)@) by {
        if m >= 10 {
            assert(decimal(m) == decimal(m / 10).push(digit_char(m % 10)));
        }
    }
}

/// Where the four decimal runs and the three dots of `ipv4_text(x)` lie.
proof fn lemma_text_layout(x: Ipv4Addr)
    ensures
        ({
            let t = ipv4_text(x);
            let la = decimal(x.a as nat).len() as int;
            let lb = decimal(x.b as nat).len() as int;
            let lc = decimal(x.c as nat).len() as int;
            let ld = decimal(x.d as nat).len() as int;
            &&& t.len() == la + lb + lc + ld + 3
            &&& t.subrange(0, la) == decimal(x.a as nat)
            &&& t[la] == '.'
            &&& t.subrange(la + 1, la + 1 + lb) == decimal(x.b as nat)
            &&& t[la + 1 + lb] == '.'
            &&& t.subrange(la + lb + 2, la + lb + 2 + lc) == decimal(x.c as nat)
            &&& t[la + lb + lc + 2] == '.'
            &&& t.subrange(la + lb + lc + 3, t.len() as int) == decimal(x.d as nat)
        }),
{
    lemma_decimal(x.a as nat);
    lemma_decimal(x.b as nat);
    lemma_decimal(x.c as nat);
    lemma_decimal(x.d as nat);
    let t = ipv4_text(x);
    let la = decimal(x.a as nat).len() as int;
    let lb = decimal(x.b as nat).len() as int;
    let lc = decimal(x.c as nat).len() as int;
    assert(t.subrange(0, la) =~= decimal(x.a as nat));
    assert(t.subrange(la + 1, la + 1 + lb) =~= decimal(x.b as nat));
    assert(t.subrange(la + lb + 2, la + lb + 2 + lc) =~= decimal(x.c as nat));
    assert(t.subrange(la + lb + lc + 3, t.len() as int) =~= decimal(x.d as nat));
}

/// Two runs of digits, each followed by a dot or the end, that start at the
/// same place in one text are the same run.
proof fn lemma_same_run(t: Seq<char>, start: int, m: nat, n: nat)
    requires
        m < 256,
        n < 256,
        0 <= start,
        start + decimal(m).len() <= t.len(),
        start + decimal(n).len() <= t.len(),
        t.subrange(start, start + decimal(m).len()) == decimal(m),
        t.subrange(start, start + decimal(n).len()) == decimal(n),
        start + decimal(m).len() == t.len() || t[start + decimal(m).len()] == '.',
        start + decimal(n).len() == t.len() || t[start + decimal(n).len()] == '.',
    ensures
        m == n,
{
    lemma_decimal(m);
    lemma_decimal(n);
    let lm = decimal(m).len() as int;
    let ln = decimal(n).len() as int;
    if lm < ln {
        assert(t.subrange(start, start + ln)[lm] == t[start + lm]);
        assert(is_digit(decimal(n)[lm]));
    } else if ln < lm {
        assert(t.subrange(start, start + lm)[ln] == t[start + ln]);
        assert(is_digit(decimal(m)[ln]));
    }
}

/// Distinct addresses have distinct texts.
pub proof fn lemma_text_injective(x: Ipv4Addr, y: Ipv4Addr)
    requires
        ipv4_text(x) == ipv4_text(y),
    ensures
        x == y,
{
    let t = ipv4_text(x);
    lemma_text_layout(x);
    lemma_text_layout(y);
    lemma_same_run(t, 0, x.a as nat, y.a as nat);
    let p = decimal(x.a as nat).len() + 1int;
    lemma_same_run(t, p, x.b as nat, y.b as nat);
    let q = p + decimal(x.b as nat).len() + 1int;
    lemma_same_run(t, q, x.c as nat, y.c as nat);
    let r = q + decimal(x.c as nat).len() + 1int;
    lemma_same_run(t, r, x.d as nat, y.d as nat);
}

/// The address whose dotted-decimal text is `s`, if there is one.
pub open spec fn address_of(s: Seq<char>) -> Option<Ipv4Addr> {
    if exists|x: Ipv4Addr| ipv4_text(x) == s {
        Some(choose|x: Ipv4Addr| ipv4_text(x) == s)
    } else {
        None
    }
}

/// Reading the text of an address gives that address back.
pub proof fn lemma_address_of_text(x: Ipv4Addr)
    ensures
        address_of(ipv4_text(x)) == Some(x),
{
    let y = choose|y: Ipv4Addr| ipv4_text(y) == ipv4_text(x);
    lemma_text_injective(x, y);
}

fn is_digit_char(c: char) -> (r: bool)
    ensures
        r == is_digit(c),
{
    '0' <= c && c <= '9'
}

/// Reads the run of at most three digits at `start`, that ends the text or
/// stands before a non-digit, as a value below 256; gives the value and the
/// end of the run.
fn read_octet(s: &str, n: usize, start: usize) -> (r: Option<(u8, usize)>)
    requires
        n == s@.len(),
        start <= n,
    ensures
        r matches Some((v, e)) ==> start < e <= n,
        forall|k: nat|
            k < 256 && start + decimal(k).len() <= n && s@.subrange(
                start as int,
                start + decimal(k).len(),
            ) == #[trigger] decimal(k) && (start + decimal(k).len() == n || !is_digit(
                s@[start + decimal(k).len()],
            )) ==> r == Some((k as u8, (start + decimal(k).len()) as usize)),
{
    let mut i: usize = start;
    let mut v: u32 = 0;
    while i < n && i - start < 3 && is_digit_char(s.get_char(i))
        invariant
            n == s@.len(),
            start <= i <= n,
            i - start <= 3,
            v == digits_value(s@.subrange(start as int, i as int)),
            i - start == 0 ==> v == 0,
            i - start == 1 ==> v < 10,
            i - start == 2 ==> v < 100,
            v < 1000,
            forall|j: int| start <= j < i ==> #[trigger] is_digit(s@[j]),
        decreases n - i,
    {
        let c = s.get_char(i);
        let dv: u32 = (c as u32) - ('0' as u32);
        assert(s@.subrange(start as int, i + 1).drop_last() =~= s@.subrange(start as int, i as int));
        v = v * 10 + dv;
        i = i + 1;
    }
    let ghost stop = i;
    proof {
        assert forall|k: nat|
            k < 256 && start + decimal(k).len() <= n && s@.subrange(
                start as int,
                start + decimal(k).len(),
            ) == #[trigger] decimal(k) && (start + decimal(k).len() == n || !is_digit(
                s@[start + decimal(k).len()],
            )) implies stop == start + decimal(k).len() && v == k by {
            lemma_decimal(k);
            let l = decimal(k).len() as int;
            if stop < start + l {
                assert(s@.subrange(start as int, start + l)[stop - start] == s@[stop as int]);
            } else if stop > start + l {
                assert(is_digit(s@[start + l]));
            }
            assert(s@.subrange(start as int, stop as int) == decimal(k));
        }
    }
    if i == start {
        return None;
    }
    if i < n && is_digit_char(s.get_char(i)) {
        return None;
    }
    if v > 255 {
        return None;
    }
    Some((v as u8, i))
}

/// `t` holds, from `start`, the decimal form of the octet `k`, then a dot,
/// or, for the last field, the end of `t`.
#[verifier::opaque]
spec fn field_at(t: Seq<char>, start: int, k: nat, last: bool) -> bool {
    let e = start + decimal(k).len();
    &&& k < 256
    &&& 0 <= start
    &&& e <= t.len()
    &&& t.subrange(start, e) == decimal(k)
    &&& if last {
        e == t.len()
    } else {
        e < t.len() && t[e] == '.'
    }
}

/// Where the next field begins after the field of `k` at `start`.
spec fn field_end(start: int, k: nat, last: bool) -> int {
    start + decimal(k).len() + if last {
        0int
    } else {
        1int
    }
}

/// The four fields of the text of `x`.
proof fn lemma_text_fields(x: Ipv4Addr)
    ensures
        ({
            let t = ipv4_text(x);
            let p = field_end(0, x.a as nat, false);
            let q = field_end(p, x.b as nat, false);
            let u = field_end(q, x.c as nat, false);
            &&& field_at(t, 0, x.a as nat, false)
            &&& field_at(t, p, x.b as nat, false)
            &&& field_at(t, q, x.c as nat, false)
            &&& field_at(t, u, x.d as nat, true)
        }),
{
    reveal(field_at);
    lemma_text_layout(x);
}

/// Reads one field: an octet, then a dot or, for the last field, the end of
/// the text; gives the octet and where the next field begins.
fn read_field(s: &str, n: usize, start: usize, last: bool) -> (r: Option<(u8, usize)>)
    requires
        n == s@.len(),
        start <= n,
    ensures
        r matches Some((v, e)) ==> start < e <= n,
        forall|k: nat| #[trigger]
            field_at(s@, start as int, k, last) ==> r == Some(
                (k as u8, field_end(start as int, k, last) as usize),
            ),
{
    proof {
        reveal(field_at);
    }
    let (v, e) = match read_octet(s, n, start) {
        Some(found) => found,
        None => return None,
    };
    if last {
        if e == n {
            Some((v, e))
        } else {
            None
        }
    } else if e < n && s.get_char(e) == '.' {
        Some((v, e + 1))
    } else {
        None
    }
}

/// Reads four fields that make up the whole text. Every text of an address
/// is read as that address.
fn split_octets(s: &str) -> (r: Option<Ipv4Addr>)
    ensures
        forall|x: Ipv4Addr| ipv4_text(x) == s@ ==> r == Some(x),
{
    let n = s.unicode_len();
    let fa = read_field(s, n, 0, false);
    let (a, p) = match fa {
        Some(found) => found,
        None => {
            proof {
                assert forall|x: Ipv4Addr| ipv4_text(x) == s@ implies false by {
                    lemma_text_fields(x);
                }
            }
            return None;
        },
    };
    let fb = read_field(s, n, p, false);
    let (b, q) = match fb {
        Some(found) => found,
        None => {
            proof {
                assert forall|x: Ipv4Addr| ipv4_text(x) == s@ implies false by {
                    lemma_text_fields(x);
                }
            }
            return None;
        },
    };
    let fc = read_field(s, n, q, false);
    let (c, u) = match fc {
        Some(found) => found,
        None => {
            proof {
                assert forall|x: Ipv4Addr| ipv4_text(x) == s@ implies false by {
                    lemma_text_fields(x);
                }
            }
            return None;
        },
    };
    let fd = read_field(s, n, u, true);
    let (d, _) = match fd {
        Some(found) => found,
        None => {
            proof {
                assert forall|x: Ipv4Addr| ipv4_text(x) == s@ implies false by {
                    lemma_text_fields(x);
                }
            }
            return None;
        },
    };
    proof {
        assert forall|x: Ipv4Addr| ipv4_text(x) == s@ implies x == (Ipv4Addr { a, b, c, d }) by {
            lemma_text_fields(x);
        }
    }
    Some(Ipv4Addr { a, b, c, d })
}

impl Ipv4Addr {
    /// The address with octets `a.b.c.d`.
    pub fn new(a: u8, b: u8, c: u8, d: u8) -> (r: Ipv4Addr)
        ensures
            r == (Ipv4Addr { a, b, c, d }),
    {
        Ipv4Addr { a, b, c, d }
    }

    /// The four octets, in network order.
    pub fn octets(&self) -> (r: [u8; 4])
        ensures
            r@ == seq![self.a, self.b, self.c, self.d],
    {
        [self.a, self.b, self.c, self.d]
    }

    /// The address written in `s` in dotted-decimal form: four octets of one
    /// to three digits split by dots, with no leading zeros and nothing else.
    pub fn parse(s: &str) -> (r: Option<Ipv4Addr>)
        ensures
            r == address_of(s@),
    {
        match split_octets(s) {
            Some(x) => {
                let text = x.to_string();
                let whole = String::from_str(s);
                if text == whole {
                    proof {
                        lemma_address_of_text(x);
                    }
                    Some(x)
                } else {
                    None
                }
            },
            None => None,
        }
    }

    /// The dotted-decimal text of the address.
    pub fn to_string(&self) -> (r: String)
        ensures
            r@ == ipv4_text(*self),
    {
        let mut out = String::new();
        push_decimal(&mut out, self.a);
        out.append(".");
        push_decimal(&mut out, self.b);
        out.append(".");
        push_decimal(&mut out, self.c);
        out.append(".");
        push_decimal(&mut out, self.d);
        proof {
            reveal_strlit(".");
            assert(out@ =~= ipv4_text(*self));
        }
        out
    }
}

} // verus!
