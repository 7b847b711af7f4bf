//! Physical dimensions of values: exponents of length, time and mass, their
//! arithmetic, and how a dimension is written as a unit.

use vstd::prelude::*;

use crate::error::{evaluation_error, Numora};
use crate::text::{append_chars, chars_of, decimal, decimal_chars, str_eq, string_from};

verus! {

/// The exponents of metres, seconds and kilograms in a quantity.
#[derive(Debug, Clone, Copy, PartialEq, Eq, Structural)]
pub struct UnitDim {
    pub length: i32,
    pub time: i32,
    pub mass: i32,
}

/// The text of one unit raised to a power: `m`, `m^2`, ...
pub open spec fn part_text(name: Seq<char>, power: int) -> Seq<char> {
    let a = if power < 0 { -power } else { power };
    if a == 1 {
        name
    } else {
        name + "^"@ + decimal(a as nat)
    }
}

/// The parts with a positive exponent, in the order metres, seconds, kilograms.
pub open spec fn positive_parts(d: UnitDim) -> Seq<Seq<char>> {
    (if d.length > 0 { seq![part_text("m"@, d.length as int)] } else { Seq::empty() })
        + (if d.time > 0 { seq![part_text("s"@, d.time as int)] } else { Seq::empty() })
        + (if d.mass > 0 { seq![part_text("kg"@, d.mass as int)] } else { Seq::empty() })
}

/// The parts with a negative exponent, written with its absolute value.
pub open spec fn negative_parts(d: UnitDim) -> Seq<Seq<char>> {
    (if d.length < 0 { seq![part_text("m"@, d.length as int)] } else { Seq::empty() })
        + (if d.time < 0 { seq![part_text("s"@, d.time as int)] } else { Seq::empty() })
        + (if d.mass < 0 { seq![part_text("kg"@, d.mass as int)] } else { Seq::empty() })
}

/// The parts joined with `*`.
pub open spec fn join_star(parts: Seq<Seq<char>>) -> Seq<char>
    decreases parts.len(),
{
    if parts.len() == 0 {
        Seq::empty()
    } else if parts.len() == 1 {
        parts[0]
    } else {
        join_star(parts.drop_last()) + "*"@ + parts.last()
    }
}

/// How a dimension is written: empty without units, else the positive parts,
/// then `/` and the negative parts when there are any.
pub open spec fn unit_text(d: UnitDim) -> Seq<char> {
    if d.length == 0 && d.time == 0 && d.mass == 0 {
        Seq::empty()
    } else if negative_parts(d).len() == 0 {
        join_star(positive_parts(d))
    } else {
        join_star(positive_parts(d)) + "/"@ + join_star(negative_parts(d))
    }
}

/// The dimension can be written: no exponent is `i32::MIN`.
pub open spec fn formattable(d: UnitDim) -> bool {
    d.length > i32::MIN && d.time > i32::MIN && d.mass > i32::MIN
}

/// The dimension of the unit called `name`, for the units the language knows.
pub open spec fn unit_dimension(name: Seq<char>) -> Option<UnitDim> {
    if name == "m"@ || name == "cm"@ || name == "km"@ {
        Some(UnitDim { length: 1, time: 0, mass: 0 })
    } else if name == "s"@ {
        Some(UnitDim { length: 0, time: 1, mass: 0 })
    } else if name == "kg"@ || name == "g"@ {
        Some(UnitDim { length: 0, time: 0, mass: 1 })
    } else {
        None
    }
}

/// The message for two values whose units differ under `verb` (`add`, `subtract`).
pub open spec fn unit_mismatch_message(verb: Seq<char>, a: UnitDim, b: UnitDim) -> Seq<char> {
    "Cannot "@ + verb + " values with different units: '"@ + unit_text(a) + "' and '"@
        + unit_text(b) + "'"@
}

impl UnitDim {
    pub fn none() -> (d: Self)
        ensures
            d == (UnitDim { length: 0, time: 0, mass: 0 }),
    {
        Self { length: 0, time: 0, mass: 0 }
    }

    pub fn length() -> (d: Self)
        ensures
            d == (UnitDim { length: 1, time: 0, mass: 0 }),
    {
        Self { length: 1, time: 0, mass: 0 }
    }

    pub fn time() -> (d: Self)
        ensures
            d == (UnitDim { length: 0, time: 1, mass: 0 }),
    {
        Self { length: 0, time: 1, mass: 0 }
    }

    pub fn mass() -> (d: Self)
        ensures
            d == (UnitDim { length: 0, time: 0, mass: 1 }),
    {
        Self { length: 0, time: 0, mass: 1 }
    }

    pub fn is_dimensionless(&self) -> (r: bool)
        ensures
            r == (self.length == 0 && self.time == 0 && self.mass == 0),
    {
        self.length == 0 && self.time == 0 && self.mass == 0
    }

    /// The dimension of a product: exponents add.
    pub fn multiply(self, other: Self) -> (d: Self)
        requires
            i32::MIN <= self.length + other.length <= i32::MAX,
            i32::MIN <= self.time + other.time <= i32::MAX,
            i32::MIN <= self.mass + other.mass <= i32::MAX,
        ensures
            d.length == self.length + other.length,
            d.time == self.time + other.time,
            d.mass == self.mass + other.mass,
    {
        Self {
            length: self.length + other.length,
            time: self.time + other.time,
            mass: self.mass + other.mass,
        }
    }

    /// The dimension of a quotient: exponents subtract.
    pub fn divide(self, other: Self) -> (d: Self)
        requires
            i32::MIN <= self.length - other.length <= i32::MAX,
            i32::MIN <= self.time - other.time <= i32::MAX,
            i32::MIN <= self.mass - other.mass <= i32::MAX,
        ensures
            d.length == self.length - other.length,
            d.time == self.time - other.time,
            d.mass == self.mass - other.mass,
    {
        Self {
            length: self.length - other.length,
            time: self.time - other.time,
            mass: self.mass - other.mass,
        }
    }

    /// The dimension of an integer power: exponents multiply.
    pub fn power(self, exponent: i32) -> (d: Self)
        requires
            i32::MIN <= self.length * exponent <= i32::MAX,
            i32::MIN <= self.time * exponent <= i32::MAX,
            i32::MIN <= self.mass * exponent <= i32::MAX,
        ensures
            d.length == self.length * exponent,
            d.time == self.time * exponent,
            d.mass == self.mass * exponent,
    {
        Self {
            length: self.length * exponent,
            time: self.time * exponent,
            mass: self.mass * exponent,
        }
    }

    /// The dimension of a square root: exponents halve, which needs them all even.
    pub fn sqrt(self) -> (r: Result<Self, Numora>)
        requires
            !(self.length % 2 == 0 && self.time % 2 == 0 && self.mass % 2 == 0) ==> formattable(self),
        ensures
            (self.length % 2 == 0 && self.time % 2 == 0 && self.mass % 2 == 0) ==> r == Ok::<
                UnitDim,
                Numora,
            >(UnitDim { length: (self.length / 2) as i32, time: (self.time / 2) as i32, mass: (self.mass / 2) as i32 }),
            !(self.length % 2 == 0 && self.time % 2 == 0 && self.mass % 2 == 0) ==> evaluation_error(
                r,
                "sqrt() cannot cleanly simplify unit '"@ + unit_text(self) + "'"@,
            ),
    {
        if self.length % 2 != 0 || self.time % 2 != 0 || self.mass % 2 != 0 {
            let mut msg = string_from("sqrt() cannot cleanly simplify unit '");
            let u = self.format();
            let uv = chars_of(u.as_str());
            append_chars(&mut msg, &uv);
            let q = chars_of("'");
            append_chars(&mut msg, &q);
            return Err(Numora::EvaluationError(msg));
        }
        Ok(Self { length: self.length / 2, time: self.time / 2, mass: self.mass / 2 })
    }

    /// The unit text of the dimension, such as `m^2` or `m/s`.
    pub fn format(&self) -> (r: String)
        requires
            formattable(*self),
        ensures
            r@ == unit_text(*self),
    {
        if self.is_dimensionless() {
            return String::new();
        }
        let mut positive: Vec<Vec<char>> = Vec::new();
        let mut negative: Vec<Vec<char>> = Vec::new();
        push_unit_part(&mut positive, &mut negative, "m", self.length);
        push_unit_part(&mut positive, &mut negative, "s", self.time);
        push_unit_part(&mut positive, &mut negative, "kg", self.mass);
        proof {
            let d = *self;
            assert(parts_views(positive@) =~= positive_parts(d));
            assert(parts_views(negative@) =~= negative_parts(d));
        }
        let mut out = join_parts(&positive);
        if negative.len() != 0 {
            let slash = chars_of("/");
            append_chars(&mut out, &slash);
            let n = join_parts(&negative);
            let nv = chars_of(n.as_str());
            append_chars(&mut out, &nv);
        }
        out
    }

    /// The dimension of a unit name the language knows.
    pub fn of_unit(name: &str) -> (r: Result<Self, Numora>)
        ensures
            match unit_dimension(name@) {
                Some(d) => r == Ok::<UnitDim, Numora>(d),
                None => evaluation_error(r, "Unknown unit '"@ + name@ + "'"@),
            },
    {
        if str_eq(name, "m") || str_eq(name, "cm") || str_eq(name, "km") {
            Ok(Self::length())
        } else if str_eq(name, "s") {
            Ok(Self::time())
        } else if str_eq(name, "kg") || str_eq(name, "g") {
            Ok(Self::mass())
        } else {
            let mut msg = string_from("Unknown unit '");
            let nv = chars_of(name);
            append_chars(&mut msg, &nv);
            let q = chars_of("'");
            append_chars(&mut msg, &q);
            Err(Numora::EvaluationError(msg))
        }
    }

    /// Adding or subtracting needs equal dimensions; `verb` names the operation
    /// in the message.
    pub fn require_same(self, other: Self, verb: &str) -> (r: Result<(), Numora>)
        requires
            self != other ==> formattable(self) && formattable(other),
        ensures
            self == other ==> r is Ok,
            self != other ==> evaluation_error(r, unit_mismatch_message(verb@, self, other)),
    {
        if self == other {
            return Ok(());
        }
        let mut msg = string_from("Cannot ");
        let v = chars_of(verb);
        append_chars(&mut msg, &v);
        let t1 = chars_of(" values with different units: '");
        append_chars(&mut msg, &t1);
        let a = self.format();
        let av = chars_of(a.as_str());
        append_chars(&mut msg, &av);
        let t2 = chars_of("' and '");
        append_chars(&mut msg, &t2);
        let b = other.format();
        let bv = chars_of(b.as_str());
        append_chars(&mut msg, &bv);
        let t3 = chars_of("'");
        append_chars(&mut msg, &t3);
        Err(Numora::EvaluationError(msg))
    }
}

/// The dimension of a product: exponents add.
pub open spec fn product_dim(a: UnitDim, b: UnitDim) -> (int, int, int) {
    (a.length + b.length, a.time + b.time, a.mass + b.mass)
}

/// The exponents of a dimension.
pub open spec fn exponents(d: UnitDim) -> (int, int, int) {
    (d.length as int, d.time as int, d.mass as int)
}

/// The order of the factors of a product does not change its dimension,
/// and a dimensionless factor leaves the other's dimension as it is.
pub proof fn lemma_product_commutes(a: UnitDim, b: UnitDim)
    ensures
        product_dim(a, b) == product_dim(b, a),
        b.length == 0 && b.time == 0 && b.mass == 0 ==> product_dim(a, b) == exponents(a),
{
}

/// Dividing by a factor undoes multiplying by it: when `a * b` fits,
/// `(a * b) / b` has the dimension of `a`.
pub proof fn lemma_divide_undoes_multiply(a: UnitDim, b: UnitDim, p: UnitDim)
    requires
        exponents(p) == product_dim(a, b),
    ensures
        (p.length - b.length, p.time - b.time, p.mass - b.mass) == exponents(a),
{
}

/// The square root of a square is the dimension squared: `sqrt` halves
/// every exponent of `d.power(2)` back to `d`.
pub proof fn lemma_sqrt_of_square(d: UnitDim, p: UnitDim)
    requires
        exponents(p) == (d.length * 2, d.time * 2, d.mass * 2),
    ensures
        p.length % 2 == 0 && p.time % 2 == 0 && p.mass % 2 == 0,
        (p.length / 2, p.time / 2, p.mass / 2) == exponents(d),
{
}

/// A unit alone is written with its exponent: for a dimension of metres
/// only, with exponent `e`, the text is `m` when `e` is 1, else `m^` and `e`
/// in decimal; a negative exponent is written after `/` with its absolute
/// value (`/m`, `/m^3`). The same holds of seconds (`s`) and kilograms (`kg`).
pub proof fn lemma_single_unit_text(e: i32)
    requires
        e != 0,
        e > i32::MIN,
    ensures
        ({
            let a: int = if e < 0 { -e } else { e as int };
            let exp = if a == 1 { Seq::<char>::empty() } else { "^"@ + decimal(a as nat) };
            let slash = if e < 0 { "/"@ } else { Seq::<char>::empty() };
            &&& unit_text(UnitDim { length: e, time: 0, mass: 0 }) == slash + "m"@ + exp
            &&& unit_text(UnitDim { length: 0, time: e, mass: 0 }) == slash + "s"@ + exp
            &&& unit_text(UnitDim { length: 0, time: 0, mass: e }) == slash + "kg"@ + exp
        }),
{
    let a: int = if e < 0 { -e } else { e as int };
    let exp = if a == 1 { Seq::<char>::empty() } else { "^"@ + decimal(a as nat) };
    let slash = if e < 0 { "/"@ } else { Seq::<char>::empty() };
    let dl = UnitDim { length: e, time: 0, mass: 0 };
    let dt = UnitDim { length: 0, time: e, mass: 0 };
    let dm = UnitDim { length: 0, time: 0, mass: e };
    let pl = part_text("m"@, e as int);
    let pt = part_text("s"@, e as int);
    let pm = part_text("kg"@, e as int);
    assert(pl =~= "m"@ + exp);
    assert(pt =~= "s"@ + exp);
    assert(pm =~= "kg"@ + exp);
    if e > 0 {
        assert(positive_parts(dl) =~= seq![pl]);
        assert(positive_parts(dt) =~= seq![pt]);
        assert(positive_parts(dm) =~= seq![pm]);
        assert(negative_parts(dl) =~= Seq::<Seq<char>>::empty());
        assert(negative_parts(dt) =~= Seq::<Seq<char>>::empty());
        assert(negative_parts(dm) =~= Seq::<Seq<char>>::empty());
        assert(slash + "m"@ + exp =~= pl);
        assert(slash + "s"@ + exp =~= pt);
        assert(slash + "kg"@ + exp =~= pm);
    } else {
        assert(negative_parts(dl) =~= seq![pl]);
        assert(negative_parts(dt) =~= seq![pt]);
        assert(negative_parts(dm) =~= seq![pm]);
        assert(positive_parts(dl) =~= Seq::<Seq<char>>::empty());
        assert(positive_parts(dt) =~= Seq::<Seq<char>>::empty());
        assert(positive_parts(dm) =~= Seq::<Seq<char>>::empty());
        assert(join_star(Seq::<Seq<char>>::empty()) =~= Seq::<char>::empty());
        assert(unit_text(dl) =~= Seq::<char>::empty() + "/"@ + pl);
        assert(slash + "m"@ + exp =~= Seq::<char>::empty() + "/"@ + pl);
        assert(unit_text(dt) =~= Seq::<char>::empty() + "/"@ + pt);
        assert(slash + "s"@ + exp =~= Seq::<char>::empty() + "/"@ + pt);
        assert(unit_text(dm) =~= Seq::<char>::empty() + "/"@ + pm);
        assert(slash + "kg"@ + exp =~= Seq::<char>::empty() + "/"@ + pm);
    }
}

/// What follows a unit's name for an exponent of absolute value `a`:
/// nothing for 1, else `^` and `a` in decimal.
pub open spec fn power_suffix(a: int) -> Seq<char> {
    if a == 1 {
        Seq::<char>::empty()
    } else {
        "^"@ + decimal(a as nat)
    }
}

/// Several units are written metres first, then seconds, then kilograms,
/// joined by `*`, each with its own exponent; the units with a negative
/// exponent come after one `/`: a dimension with positive exponents `l`,
/// `t`, `k` is `m^l*s^t*kg^k`, and one with `l > 0` metres and `t < 0`
/// seconds is `m^l/s^-t` (each `^1` left out).
pub proof fn lemma_unit_text_order(l: i32, t: i32, k: i32)
    requires
        l > 0,
        i32::MIN < t,
        t != 0,
        k > 0,
    ensures
        t > 0 ==> unit_text(UnitDim { length: l, time: t, mass: k }) == "m"@ + power_suffix(l as int) + "*s"@
            + power_suffix(t as int) + "*kg"@ + power_suffix(k as int),
        t < 0 ==> unit_text(UnitDim { length: l, time: t, mass: 0 }) == "m"@ + power_suffix(l as int) + "/s"@
            + power_suffix(-t),
{
    let pl = part_text("m"@, l as int);
    let pt = part_text("s"@, t as int);
    let pk = part_text("kg"@, k as int);
    assert(pl =~= "m"@ + power_suffix(l as int));
    assert(pk =~= "kg"@ + power_suffix(k as int));
    if t > 0 {
        let d = UnitDim { length: l, time: t, mass: k };
        assert(pt =~= "s"@ + power_suffix(t as int));
        assert(positive_parts(d) =~= seq![pl, pt, pk]);
        assert(negative_parts(d) =~= Seq::<Seq<char>>::empty());
        assert(seq![pl, pt, pk].drop_last() =~= seq![pl, pt]);
        assert(seq![pl, pt].drop_last() =~= seq![pl]);
        assert(join_star(seq![pl]) == pl);
        assert(seq![pl, pt].last() == pt);
        assert(join_star(seq![pl, pt]) == join_star(seq![pl]) + "*"@ + pt);
        assert(seq![pl, pt, pk].last() == pk);
        assert(join_star(seq![pl, pt, pk]) == join_star(seq![pl, pt]) + "*"@ + pk);
        reveal_strlit("*s");
        reveal_strlit("*kg");
        reveal_strlit("*");
        reveal_strlit("s");
        reveal_strlit("kg");
        assert(unit_text(d) =~= "m"@ + power_suffix(l as int) + "*s"@ + power_suffix(t as int) + "*kg"@
            + power_suffix(k as int));
    } else {
        let d = UnitDim { length: l, time: t, mass: 0 };
        assert(pt =~= "s"@ + power_suffix(-t));
        assert(positive_parts(d) =~= seq![pl]);
        assert(negative_parts(d) =~= seq![pt]);
        reveal_strlit("/s");
        reveal_strlit("/");
        reveal_strlit("s");
        assert(unit_text(d) =~= "m"@ + power_suffix(l as int) + "/s"@ + power_suffix(-t));
    }
}

/// The character sequences held by a vector of parts.
pub open spec fn parts_views(v: Seq<Vec<char>>) -> Seq<Seq<char>> {
    v.map_values(|p: Vec<char>| p@)
}

fn push_unit_part(positive: &mut Vec<Vec<char>>, negative: &mut Vec<Vec<char>>, name: &str, power: i32)
    requires
        power > i32::MIN,
    ensures
        power > 0 ==> parts_views(final(positive)@) == parts_views(old(positive)@).push(part_text(name@, power as int))
            && final(negative)@ == old(negative)@,
        power < 0 ==> parts_views(final(negative)@) == parts_views(old(negative)@).push(part_text(name@, power as int))
            && final(positive)@ == old(positive)@,
        power == 0 ==> final(positive)@ == old(positive)@ && final(negative)@ == old(negative)@,
{
    if power == 0 {
        return;
    }
    let abs_power: i32 = if power < 0 { -power } else { power };
    let mut text = chars_of(name);
    if abs_power != 1 {
        text.push('^');
        let mut d = decimal_chars(abs_power as u64);
        text.append(&mut d);
    }
    proof {
        reveal_strlit("^");
        assert(text@ =~= part_text(name@, power as int));
    }
    let ghost tv = text@;
    if power > 0 {
        positive.push(text);
        assert(parts_views(positive@) =~= parts_views(old(positive)@).push(tv));
    } else {
        negative.push(text);
        assert(parts_views(negative@) =~= parts_views(old(negative)@).push(tv));
    }
}

fn join_parts(parts: &Vec<Vec<char>>) -> (r: String)
    ensures
        r@ == join_star(parts_views(parts@)),
{
    let ghost ps = parts_views(parts@);
    let mut out = String::new();
    let mut i: usize = 0;
    while i < parts.len()
        invariant
            i <= parts@.len(),
            ps == parts_views(parts@),
            out@ == join_star(ps.take(i as int)),
        decreases parts@.len() - i,
    {
        proof {
            assert(ps.take(i + 1).drop_last() =~= ps.take(i as int));
        }
        if i != 0 {
            push_star(&mut out);
        }
        append_chars(&mut out, &parts[i]);
        i = i + 1;
        proof {
            if i == 1 {
                assert(out@ =~= join_star(ps.take(1)));
            }
        }
    }
    assert(ps.take(parts@.len() as int) =~= ps);
    out
}

fn push_star(out: &mut String)
    ensures
        final(out)@ == old(out)@ + "*"@,
{
    let star = chars_of("*");
    append_chars(out, &star);
}

} // verus!
