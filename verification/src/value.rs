//! Small readers for plugins that map a daemon's own JSON into components,
//! and sizes printed the way stormblock prints its own.

use vstd::prelude::*;
use crate::json::Json;
use crate::text::{decimal, push_char, push_decimal, push_str, owned};

verus! {

/// The first of `keys` present on `v` as text — strings as they are when
/// not empty, numbers as written, booleans as `true`/`false`.
pub open spec fn field_spec(v: Json, keys: Seq<Seq<char>>) -> Option<Seq<char>>
    decreases keys.len(),
{
    if keys.len() == 0 {
        None
    } else {
        match v.member(keys[0]) {
            Some(Json::Str(s)) if s@.len() > 0 => Some(s@),
            Some(Json::Num(n)) => Some(n.text@),
            Some(Json::Bool(b)) => Some(if b { "true"@ } else { "false"@ }),
            _ => field_spec(v, keys.drop_first()),
        }
    }
}

pub fn field(v: &Json, keys: &[&str]) -> (r: Option<String>)
    ensures
        match (r, field_spec(*v, keys@.map_values(|k: &str| k@))) {
            (Some(a), Some(b)) => a@ == b,
            (None, None) => true,
            _ => false,
        },
{
    let ghost ks = keys@.map_values(|k: &str| k@);
    let mut i: usize = 0;
    assert(ks.skip(0) == ks);
    while i < keys.len()
        invariant
            i <= keys@.len(),
            ks == keys@.map_values(|k: &str| k@),
            field_spec(*v, ks) == field_spec(*v, ks.skip(i as int)),
        decreases keys@.len() - i,
    {
        assert(ks.skip(i as int)[0] == keys@[i as int]@);
        assert(ks.skip(i as int).drop_first() == ks.skip(i + 1));
        match v.get(keys[i]) {
            Some(Json::Str(s)) => {
                if s.as_str().unicode_len() > 0 {
                    return Some(s.clone());
                }
            },
            Some(Json::Num(n)) => {
                return Some(n.text.clone());
            },
            Some(Json::Bool(b)) => {
                return Some(if *b { owned("true") } else { owned("false") });
            },
            _ => {},
        }
        i += 1;
    }
    None
}

/// A member as an unsigned integer.
pub fn u64_field(v: &Json, key: &str) -> (r: Option<u64>)
    ensures
        r == (match v.member(key@) {
            Some(x) => x.u64_of(),
            None => None,
        }),
{
    match v.get(key) {
        Some(x) => x.as_u64(),
        None => None,
    }
}

/// The power of two a 64-bit integer is rounded to a multiple of when it
/// becomes an `f64`: 1 below 2^53, and doubling with each further bit.
pub open spec fn f64_unit(n: nat) -> nat
    decreases n,
{
    if n < 0x20_0000_0000_0000 { 1 } else { 2 * f64_unit(n / 2) }
}

/// `q * unit` rounded from `n`, half to even.
pub open spec fn round_half_even(n: nat, unit: nat) -> nat {
    let q = n / unit;
    let r = n % unit;
    if 2 * r > unit || (2 * r == unit && q % 2 == 1) { q + 1 } else { q }
}

/// `n as f64`, as the integer it is: rounded to 53 significant bits, half
/// to even.
pub open spec fn as_f64(n: nat) -> nat {
    round_half_even(n, f64_unit(n)) * f64_unit(n)
}

pub open spec fn pow1024(i: nat) -> nat
    decreases i,
{
    if i == 0 { 1 } else { 1024 * pow1024((i - 1) as nat) }
}

/// How many times the size divides by 1024 before it is under 1024, at
/// most five (PB).
pub open spec fn unit_index(x: nat, i: nat) -> nat
    decreases 5 - i,
{
    if i < 5 && x >= pow1024(i + 1) { unit_index(x, i + 1) } else { i }
}

pub open spec fn unit_name(i: nat) -> Seq<char> {
    if i == 1 { "KB"@ } else if i == 2 { "MB"@ } else if i == 3 { "GB"@ } else if i == 4 { "TB"@ } else { "PB"@ }
}

/// `1.5 GB`: bytes as they are below 1 KB, otherwise the size in the
/// largest unit it reaches (up to PB) with one decimal, rounded half to
/// even from the exact value of the size as a double.
pub open spec fn human_bytes_spec(n: u64) -> Seq<char> {
    let x = as_f64(n as nat);
    let i = unit_index(x, 0);
    if i == 0 {
        decimal(n as nat) + " B"@
    } else {
        let tenths = round_half_even(10 * x, pow1024(i));
        decimal(tenths / 10) + "."@ + decimal(tenths % 10) + " "@ + unit_name(i)
    }
}

/// The unit is the largest of B, KB, MB, GB, TB and PB that the size
/// reaches: below 1024 bytes it is bytes, and each power of 1024 reached
/// moves one unit up, up to PB.
pub proof fn law_unit_index(x: nat)
    ensures
        x < 1024 ==> unit_index(x, 0) == 0,
        1024 <= x < 1048576 ==> unit_index(x, 0) == 1,
        1048576 <= x < 1073741824 ==> unit_index(x, 0) == 2,
        1073741824 <= x < 1099511627776 ==> unit_index(x, 0) == 3,
        1099511627776 <= x < 1125899906842624 ==> unit_index(x, 0) == 4,
        1125899906842624 <= x ==> unit_index(x, 0) == 5,
{
    reveal_with_fuel(pow1024, 6);
    reveal_with_fuel(unit_index, 7);
    assert(pow1024(1) == 1024);
    assert(pow1024(2) == 1048576);
    assert(pow1024(3) == 1073741824);
    assert(pow1024(4) == 1099511627776);
    assert(pow1024(5) == 1125899906842624);
}

/// A printed size ends in the unit its value reaches: ` B` below 1024,
/// then ` KB`, ` MB`, ` GB`, ` TB` at each power of 1024, and ` PB` from
/// 1024^5 on.
pub proof fn law_human_bytes_unit(n: u64)
    ensures
        ({
            let t = human_bytes_spec(n);
            let x = as_f64(n as nat);
            &&& x < 1024 ==> t.len() >= 2 && t.skip(t.len() - 2) == seq![' ', 'B']
            &&& 1024 <= x < 1048576 ==> t.len() >= 3 && t.skip(t.len() - 3) == seq![' ', 'K', 'B']
            &&& 1048576 <= x < 1073741824 ==> t.len() >= 3 && t.skip(t.len() - 3) == seq![' ', 'M', 'B']
            &&& 1073741824 <= x < 1099511627776 ==> t.len() >= 3 && t.skip(t.len() - 3) == seq![' ', 'G', 'B']
            &&& 1099511627776 <= x < 1125899906842624 ==> t.len() >= 3 && t.skip(t.len() - 3) == seq![' ', 'T', 'B']
            &&& 1125899906842624 <= x ==> t.len() >= 3 && t.skip(t.len() - 3) == seq![' ', 'P', 'B']
        }),
{
    let x = as_f64(n as nat);
    law_unit_index(x);
    reveal_strlit(" B");
    reveal_strlit(" ");
    reveal_strlit("KB");
    reveal_strlit("MB");
    reveal_strlit("GB");
    reveal_strlit("TB");
    reveal_strlit("PB");
    let t = human_bytes_spec(n);
    let i = unit_index(x, 0);
    if i == 0 {
        let d = decimal(n as nat);
        assert(t == d + " B"@);
        assert(t.skip(t.len() - 2) =~= seq![' ', 'B']);
    } else {
        let tenths = round_half_even(10 * x, pow1024(i));
        let head = decimal(tenths / 10) + "."@ + decimal(tenths % 10);
        assert(t == head + " "@ + unit_name(i));
        assert(t.skip(t.len() - 3) =~= " "@ + unit_name(i));
    }
}

/// The number a printed size shows is the size in its unit to the nearest
/// tenth: `t` tenths of the unit with the size within half a tenth of
/// them; below 1024 it is the exact count of bytes.
pub proof fn law_human_bytes_value(n: u64)
    ensures
        ({
            let x = as_f64(n as nat);
            let i = unit_index(x, 0);
            let u = pow1024(i);
            &&& x < 1024 ==> human_bytes_spec(n) == decimal(n as nat) + " B"@
            &&& x >= 1024 ==> {
                let t = round_half_even(10 * x, u);
                &&& human_bytes_spec(n) == decimal(t / 10) + "."@ + decimal(t % 10) + " "@ + unit_name(i)
                &&& 2 * t * u <= 20 * x + u
                &&& 20 * x <= 2 * t * u + u
            }
        }),
{
    let x = as_f64(n as nat);
    law_unit_index(x);
    let i = unit_index(x, 0);
    lemma_pow1024(i);
    if x >= 1024 {
        let u = pow1024(i);
        let t = round_half_even(10 * x, u);
        law_round_half_even(10 * x, u);
        assert(2 * t * u <= 20 * x + u && 20 * x <= 2 * t * u + u);
        assert(human_bytes_spec(n) == decimal(t / 10) + "."@ + decimal(t % 10) + " "@ + unit_name(i));
    }
}

proof fn lemma_pow1024(i: nat)
    requires
        i <= 5,
    ensures
        1 <= pow1024(i) <= 0x4_0000_0000_0000,
        i < 5 ==> pow1024(i) <= 0x100_0000_0000,
{
    reveal_with_fuel(pow1024, 6);
}

/// Rounding to a multiple of `unit` goes to the nearest multiple: never
/// more than half a unit away, and on an exact half to the even quotient.
pub proof fn law_round_half_even(n: nat, unit: nat)
    requires
        unit > 0,
    ensures
        2 * round_half_even(n, unit) * unit <= 2 * n + unit,
        2 * n <= 2 * round_half_even(n, unit) * unit + unit,
        2 * (n % unit) == unit ==> round_half_even(n, unit) % 2 == 0,
{
    let q = n / unit;
    let r = n % unit;
    assert(n == q * unit + r && 0 <= r < unit) by (nonlinear_arith) requires unit > 0, q == n / unit, r == n % unit;
    let k = round_half_even(n, unit);
    let qu = q * unit;
    if 2 * r > unit || (2 * r == unit && q % 2 == 1) {
        assert(k == q + 1);
        assert(2 * k * unit == 2 * qu + 2 * unit) by (nonlinear_arith) requires k == q + 1, qu == q * unit;
    } else {
        assert(k == q);
        assert(2 * k * unit == 2 * qu) by (nonlinear_arith) requires k == q, qu == q * unit;
    }
}

pub proof fn lemma_round_bounds(n: nat, unit: nat)
    requires
        unit > 0,
    ensures
        n / unit <= round_half_even(n, unit) <= n / unit + 1,
        round_half_even(n, unit) * unit <= n + unit,
{
    assert((n / unit) * unit <= n) by (nonlinear_arith) requires unit > 0;
    assert((n / unit + 1) * unit <= n + unit) by (nonlinear_arith) requires (n / unit) * unit <= n;
    assert(round_half_even(n, unit) * unit <= (n / unit + 1) * unit) by (nonlinear_arith)
        requires round_half_even(n, unit) <= n / unit + 1;
}

pub fn round_u128(n: u128, unit: u128) -> (r: u128)
    requires
        unit > 0,
        n < 0x1000_0000_0000_0000_0000_0000_0000_0000,
    ensures
        r == round_half_even(n as nat, unit as nat),
{
    let q = n / unit;
    let rem = n % unit;
    if rem > unit - rem || (rem == unit - rem && q % 2 == 1) {
        q + 1
    } else {
        q
    }
}

/// `n as f64`, exactly, as an integer.
pub fn f64_value(n: u64) -> (x: u128)
    ensures
        x as nat == as_f64(n as nat),
        x <= 0x1_0000_0000_0000_1000,
        n < 0x20_0000_0000_0000 ==> x == n,
{
    let mut unit: u128 = 1;
    let mut m: u128 = n as u128;
    while m >= 0x20_0000_0000_0000
        invariant
            unit >= 1,
            unit <= 0x1_0000_0000_0000_0000,
            m * unit <= n as nat,
            f64_unit(n as nat) == unit * f64_unit(m as nat),
            m == (n as nat) / (unit as nat),
            unit == 1 || m >= 0x10_0000_0000_0000,
        decreases m,
    {
        assert(f64_unit(m as nat) == 2 * f64_unit((m / 2) as nat));
        assert((m / 2) == (n as nat) / (2 * unit as nat)) by (nonlinear_arith)
            requires m == (n as nat) / (unit as nat), unit >= 1;
        assert(m / 2 * (2 * unit) <= n as nat) by (nonlinear_arith)
            requires m * unit <= n as nat;
        assert(unit * 2 <= 0x1_0000_0000_0000_0000) by (nonlinear_arith)
            requires m >= 0x20_0000_0000_0000, m * unit <= n as nat, n <= u64::MAX;
        assert(unit * f64_unit(m as nat) == (2 * unit) * f64_unit((m / 2) as nat)) by (nonlinear_arith)
            requires f64_unit(m as nat) == 2 * f64_unit((m / 2) as nat);
        m = m / 2;
        unit = unit * 2;
    }
    proof {
        lemma_round_bounds(n as nat, unit as nat);
        if unit != 1 {
            assert(unit * 0x10_0000_0000_0000 <= n as nat) by (nonlinear_arith)
                requires m * unit <= n as nat, m >= 0x10_0000_0000_0000;
        }
        assert(unit <= 0x1000);
    }
    let x: u128 = round_u128(n as u128, unit) * unit;
    assert(x <= 0x1_0000_0000_0000_1000);
    assert(x as nat == as_f64(n as nat)) by (nonlinear_arith)
        requires f64_unit(n as nat) == unit * f64_unit(m as nat), m < 0x20_0000_0000_0000,
            x == round_half_even(n as nat, unit as nat) * unit;
    proof {
        if n < 0x20_0000_0000_0000 {
            assert(unit == 1);
            assert(round_half_even(n as nat, 1) == n) by (nonlinear_arith);
        }
    }
    x
}

pub fn human_bytes(n: u64) -> (s: String)
    ensures
        s@ == human_bytes_spec(n),
{
    // The f64 the size becomes.
    let mut unit: u128 = 1;
    let mut m: u128 = n as u128;
    while m >= 0x20_0000_0000_0000
        invariant
            unit >= 1,
            unit <= 0x1_0000_0000_0000_0000,
            m * unit <= n as nat,
            f64_unit(n as nat) == unit * f64_unit(m as nat),
            m == (n as nat) / (unit as nat),
            unit == 1 || m >= 0x10_0000_0000_0000,
        decreases m,
    {
        assert(f64_unit(m as nat) == 2 * f64_unit((m / 2) as nat));
        assert((m / 2) == (n as nat) / (2 * unit as nat)) by (nonlinear_arith)
            requires m == (n as nat) / (unit as nat), unit >= 1;
        assert(m / 2 * (2 * unit) <= n as nat) by (nonlinear_arith)
            requires m * unit <= n as nat;
        assert(unit * 2 <= 0x1_0000_0000_0000_0000) by (nonlinear_arith)
            requires m >= 0x20_0000_0000_0000, m * unit <= n as nat, n <= u64::MAX;
        assert(unit * f64_unit(m as nat) == (2 * unit) * f64_unit((m / 2) as nat)) by (nonlinear_arith)
            requires f64_unit(m as nat) == 2 * f64_unit((m / 2) as nat);
        m = m / 2;
        unit = unit * 2;
    }
    proof {
        lemma_round_bounds(n as nat, unit as nat);
        if unit != 1 {
            assert(unit * 0x10_0000_0000_0000 <= n as nat) by (nonlinear_arith)
                requires m * unit <= n as nat, m >= 0x10_0000_0000_0000;
        }
        assert(unit <= 0x1000);
    }
    let x: u128 = round_u128(n as u128, unit) * unit;
    assert(x <= 0x1_0000_0000_0000_1000);
    assert(x as nat == as_f64(n as nat)) by (nonlinear_arith)
        requires f64_unit(n as nat) == unit * f64_unit(m as nat), m < 0x20_0000_0000_0000,
            x == round_half_even(n as nat, unit as nat) * unit;
    let mut i: u64 = 0;
    let mut d: u128 = 1;
    proof {
        lemma_pow1024(0);
    }
    while i < 5 && x >= d * 1024
        invariant
            i <= 5,
            x <= 0x1_0000_0000_0000_1000,
            1 <= d <= 0x4_0000_0000_0000,
            i < 5 ==> d <= 0x100_0000_0000,
            d as nat == pow1024(i as nat),
            unit_index(x as nat, i as nat) == unit_index(x as nat, 0),
        decreases 5 - i,
    {
        d = d * 1024;
        i += 1;
        proof {
            lemma_pow1024(i as nat);
        }
    }
    let mut s = String::new();
    if i == 0 {
        push_decimal(&mut s, n);
        push_str(&mut s, " B");
        return s;
    }
    proof {
        lemma_round_bounds(10 * x as nat, d as nat);
        assert(x >= 1024);
        assert(d >= 1024) by {
            reveal_with_fuel(pow1024, 2);
            reveal_with_fuel(unit_index, 2);
        }
        assert((10 * x as nat) / (d as nat) <= (10 * x as nat) / 1024) by (nonlinear_arith)
            requires d >= 1024;
    }
    let tenths = round_u128(10 * x, d);
    assert(tenths / 10 <= u64::MAX);
    push_decimal(&mut s, (tenths / 10) as u64);
    push_str(&mut s, ".");
    push_decimal(&mut s, (tenths % 10) as u64);
    push_str(&mut s, " ");
    let name = if i == 1 { "KB" } else if i == 2 { "MB" } else if i == 3 { "GB" } else if i == 4 { "TB" } else { "PB" };
    push_str(&mut s, name);
    s
}

} // verus!
