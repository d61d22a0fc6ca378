//! Short identifiers made from the clock.

use vstd::prelude::*;

verus! {

#[verifier::external_type_specification]
#[verifier::external_body]
pub struct ExSystemTime(std::time::SystemTime);

#[verifier::external_type_specification]
#[verifier::external_body]
pub struct ExSystemTimeError(std::time::SystemTimeError);

/// `SystemTime::now`: the current time of the machine's clock.
pub assume_specification[ std::time::SystemTime::now ]() -> std::time::SystemTime;

/// `SystemTime::duration_since` with `SystemTime::UNIX_EPOCH`: the time since the Unix
/// epoch, or an error where the clock is set before it.
#[verifier::external_body]
fn since_epoch(t: &std::time::SystemTime) -> Result<std::time::Duration, std::time::SystemTimeError> {
    t.duration_since(std::time::SystemTime::UNIX_EPOCH)
}

/// `Duration::as_nanos`: the duration in nanoseconds.
pub assume_specification[ std::time::Duration::as_nanos ](d: &std::time::Duration) -> u128;

/// The symbol for a digit of base 32: `a` to `z`, then `2` to `7`.
pub open spec fn symbol(d: nat) -> char {
    if d < 26 {
        ('a' as u32 + d) as char
    } else {
        ('2' as u32 + (d - 26)) as char
    }
}

/// The lowest `len` digits of `n` in base 32, the lowest first.
pub open spec fn id_of(n: nat, len: nat) -> Seq<char>
    decreases len,
{
    if len == 0 {
        Seq::empty()
    } else {
        seq![symbol(n % 32)] + id_of(n / 32, (len - 1) as nat)
    }
}

fn symbol_char(d: u8) -> (c: char)
    requires
        d < 32,
    ensures
        c == symbol(d as nat),
{
    if d < 26 {
        (97u8 + d) as char
    } else {
        (50u8 + (d - 26u8)) as char
    }
}

/// The lowest `len` digits of `n` in base 32, the lowest first.
pub fn encode_id(n: u128, len: usize) -> (id: String)
    ensures
        id@ == id_of(n as nat, len as nat),
{
    let mut id: String = String::new();
    let mut rest: u128 = n;
    let mut i: usize = 0;
    assert(id@ + id_of(n as nat, len as nat) =~= id_of(n as nat, len as nat));
    while i < len
        invariant
            i <= len,
            id@ + id_of(rest as nat, (len - i) as nat) == id_of(n as nat, len as nat),
        decreases len - i,
    {
        let ghost before = id@;
        let d: u8 = (rest % 32) as u8;
        id.push(symbol_char(d));
        proof {
            let tail = id_of((rest as nat) / 32, (len - i - 1) as nat);
            assert(before + (seq![symbol((rest as nat) % 32)] + tail) =~= id@ + tail);
        }
        rest = rest / 32;
        i += 1;
    }
    assert(id@ + id_of(rest as nat, 0) =~= id@);
    id
}

/// Whether `n` is the number of nanoseconds since the Unix epoch that the machine's clock
/// gave, or 0 where the clock is set before it.
pub closed spec fn clock_gave(n: nat) -> bool {
    exists|
        t: std::time::SystemTime,
        d: Result<std::time::Duration, std::time::SystemTimeError>,
        nanos: u128,
    |
        clock_read(t, d, nanos) && n == nanos
}

/// Whether the clock read `t`, of which `d` and `nanos` were made.
spec fn clock_read(
    t: std::time::SystemTime,
    d: Result<std::time::Duration, std::time::SystemTimeError>,
    nanos: u128,
) -> bool {
    &&& call_ensures(std::time::SystemTime::now, (), t)
    &&& call_ensures(since_epoch, (&t,), d)
    &&& match d {
        Ok(x) => call_ensures(std::time::Duration::as_nanos, (&x,), nanos),
        Err(_) => nanos == 0,
    }
}

/// An identifier of `len` symbols, from the machine's clock.
pub fn clock_id(len: usize) -> (id: String)
    ensures
        exists|n: nat| #[trigger] clock_gave(n) && id@ == id_of(n, len as nat),
{
    let t: std::time::SystemTime = std::time::SystemTime::now();
    let d: Result<std::time::Duration, std::time::SystemTimeError> = since_epoch(&t);
    let nanos: u128 = match &d {
        Ok(x) => x.as_nanos(),
        Err(_) => 0,
    };
    assert(clock_read(t, d, nanos));
    assert(clock_gave(nanos as nat));
    encode_id(nanos, len)
}

/// Every identifier has the length that was asked for.
pub proof fn law_id_length(n: nat, len: nat)
    ensures
        id_of(n, len).len() == len,
    decreases len,
{
    if len > 0 {
        law_id_length(n / 32, (len - 1) as nat);
    }
}

/// Two numbers below `32^len` have the same identifier only if they are the same.
pub proof fn law_id_distinct(a: nat, b: nat, len: nat)
    requires
        a < vstd::arithmetic::power::pow(32, len),
        b < vstd::arithmetic::power::pow(32, len),
        id_of(a, len) == id_of(b, len),
    ensures
        a == b,
    decreases len,
{
    if len == 0 {
        vstd::arithmetic::power::lemma_pow0(32);
    } else {
        vstd::arithmetic::power::lemma_pow1(32);
        vstd::arithmetic::power::lemma_pow_adds(32, 1, (len - 1) as nat);
        let ia = id_of(a, len);
        let ib = id_of(b, len);
        assert(ia[0] == ib[0]);
        assert(ia.skip(1) =~= id_of(a / 32, (len - 1) as nat));
        assert(ib.skip(1) =~= id_of(b / 32, (len - 1) as nat));
        let p = vstd::arithmetic::power::pow(32, (len - 1) as nat);
        assert(a / 32 < p) by (nonlinear_arith)
            requires
                a < 32 * p,
        ;
        assert(b / 32 < p) by (nonlinear_arith)
            requires
                b < 32 * p,
        ;
        law_id_distinct(a / 32, b / 32, (len - 1) as nat);
        assert(a % 32 == b % 32);
    }
}

/// An identifier is made of small letters and the digits from 2 to 7, so that none is
/// mistaken for another.
pub proof fn law_symbols_of_an_id(n: nat, len: nat, i: int)
    requires
        0 <= i < len,
    ensures
        ({
            let c = id_of(n, len)[i];
            ('a' <= c && c <= 'z') || ('2' <= c && c <= '7')
        }),
    decreases len,
{
    law_id_length(n / 32, (len - 1) as nat);
    if i > 0 {
        law_symbols_of_an_id(n / 32, (len - 1) as nat, i - 1);
        assert(id_of(n, len)[i] == id_of(n / 32, (len - 1) as nat)[i - 1]);
    }
}

/// Identifiers of numbers that follow one another differ from the first symbol on, so that
/// a short prefix tells them apart.
pub proof fn law_neighbours_differ_at_once(a: nat, b: nat, len: nat)
    requires
        len > 0,
        a % 32 != b % 32,
    ensures
        id_of(a, len)[0] != id_of(b, len)[0],
{
}

/// A longer identifier of a number goes on from a shorter one.
pub proof fn law_longer_id_goes_on(n: nat, short: nat, len: nat)
    requires
        short <= len,
    ensures
        id_of(n, len).take(short as int) == id_of(n, short),
    decreases short,
{
    law_id_length(n, len);
    if short == 0 {
        assert(id_of(n, len).take(0) =~= id_of(n, 0));
    } else {
        law_longer_id_goes_on(n / 32, (short - 1) as nat, (len - 1) as nat);
        law_id_length(n, short);
        law_id_length(n / 32, (len - 1) as nat);
        let rest = id_of(n / 32, (len - 1) as nat);
        assert(id_of(n, len).take(short as int) =~= seq![symbol(n % 32)] + rest.take(short - 1));
    }
}

/// The symbols follow the alphabet, and then the digits from 2 on.
pub proof fn law_symbols_follow_one_another(d: nat)
    requires
        d < 31,
    ensures
        d != 25 ==> symbol(d + 1) as u32 == symbol(d) as u32 + 1,
        d == 25 ==> symbol(d) == 'z' && symbol(d + 1) == '2',
{
}

} // verus!
