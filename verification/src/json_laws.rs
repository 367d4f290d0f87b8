//! What holds of JSON values.

use vstd::arithmetic::power2::{lemma2_to64, lemma_pow2_adds, lemma_pow2_pos, lemma_pow2_unfold, pow2};
use vstd::prelude::*;

use crate::json::{
    lookup, real_integer, real_rank, same_json, scaled, text_before, whole_number, with_member,
    JsonView, Members,
};

verus! {

// ---------------------------------------------------------------------------
// Members
// ---------------------------------------------------------------------------

/// The member at a place is the first with a name.
pub open spec fn is_first_named(members: Members, name: Seq<char>, i: int) -> bool {
    &&& 0 <= i < members.len()
    &&& members[i].0 == name
    &&& forall|j: int| 0 <= j < i ==> (#[trigger] members[j]).0 != name
}

/// No member has a name.
pub open spec fn has_no_member(members: Members, name: Seq<char>) -> bool {
    forall|j: int| 0 <= j < members.len() ==> (#[trigger] members[j]).0 != name
}

/// What is found under a name is the value of the first member with that name;
/// nothing is found exactly where no member has it.
pub proof fn law_lookup(members: Members, name: Seq<char>)
    ensures
        match lookup(members, name) {
            Some(value) => exists|i: int| #[trigger]
                is_first_named(members, name, i) && value == members[i].1,
            None => has_no_member(members, name),
        },
    decreases members.len(),
{
    if members.len() > 0 {
        if members[0].0 == name {
            assert(is_first_named(members, name, 0));
        } else {
            let rest = members.skip(1);
            law_lookup(rest, name);
            match lookup(rest, name) {
                Some(value) => {
                    let i = choose|i: int| #[trigger]
                        is_first_named(rest, name, i) && value == rest[i].1;
                    assert(members[i + 1] == rest[i]);
                    assert forall|j: int| 0 <= j < i + 1 implies (#[trigger] members[j]).0
                        != name by {
                        if j > 0 {
                            assert(rest[j - 1] == members[j]);
                        }
                    }
                    assert(is_first_named(members, name, i + 1));
                },
                None => {
                    assert forall|j: int| 0 <= j < members.len() implies (
                    #[trigger] members[j]).0 != name by {
                        if j > 0 {
                            assert(rest[j - 1] == members[j]);
                        }
                    }
                },
            }
        }
    }
}

/// Once a member is set, its value is found under its name, and what is found under
/// any other name is the same as before.
pub proof fn law_with_member(members: Members, name: Seq<char>, value: JsonView, other: Seq<char>)
    ensures
        lookup(with_member(members, name, value), name) == Some(value),
        other != name ==> lookup(with_member(members, name, value), other) == lookup(
            members,
            other,
        ),
    decreases members.len(),
{
    let all = with_member(members, name, value);
    if members.len() == 0 {
        assert(all.skip(1) =~= seq![]);
        assert(lookup(all.skip(1), other) is None);
    } else if members[0].0 == name {
        assert(all.skip(1) =~= members.skip(1));
    } else if text_before(name, members[0].0) {
        assert(all.skip(1) =~= members);
    } else {
        law_with_member(members.skip(1), name, value, other);
        assert(all.skip(1) =~= with_member(members.skip(1), name, value));
        assert(all[0] == members[0]);
    }
}

/// The first of two texts comes before the second exactly where they are the same up
/// to a place at which it has the smaller character or has ended.
pub open spec fn differs_first_at(a: Seq<char>, b: Seq<char>, i: int) -> bool {
    &&& 0 <= i < b.len()
    &&& i <= a.len()
    &&& forall|j: int| 0 <= j < i ==> #[trigger] a[j] == b[j]
    &&& i == a.len() || a[i] < b[i]
}

/// Texts are in the order of their characters.
pub proof fn law_text_order(a: Seq<char>, b: Seq<char>)
    ensures
        text_before(a, b) <==> exists|i: int| #[trigger] differs_first_at(a, b, i),
        !(text_before(a, b) && text_before(b, a)),
        a == b || text_before(a, b) || text_before(b, a),
        !text_before(a, a),
    decreases a.len(),
{
    if a.len() == 0 {
        if b.len() > 0 {
            assert(differs_first_at(a, b, 0));
        } else {
            assert(a =~= b);
        }
    } else if b.len() > 0 {
        law_text_order(a.skip(1), b.skip(1));
        if a[0] != b[0] {
            if a[0] < b[0] {
                assert(differs_first_at(a, b, 0));
            } else {
                assert forall|i: int| !#[trigger] differs_first_at(a, b, i) by {
                    if i > 0 {
                        assert(differs_first_at(a, b, i) ==> a[0] == b[0]);
                    }
                }
            }
        } else {
            if text_before(a, b) {
                let i = choose|i: int| #[trigger] differs_first_at(a.skip(1), b.skip(1), i);
                assert forall|j: int| 0 <= j < i + 1 implies #[trigger] a[j] == b[j] by {
                    if j > 0 {
                        assert(a.skip(1)[j - 1] == b.skip(1)[j - 1]);
                    }
                }
                assert(differs_first_at(a, b, i + 1));
            }
            if exists|i: int| #[trigger] differs_first_at(a, b, i) {
                let i = choose|i: int| #[trigger] differs_first_at(a, b, i);
                assert forall|j: int| 0 <= j < i - 1 implies #[trigger] a.skip(1)[j] == b.skip(
                    1,
                )[j] by {
                    assert(a[j + 1] == b[j + 1]);
                }
                assert(differs_first_at(a.skip(1), b.skip(1), i - 1));
            }
            if a.skip(1) == b.skip(1) {
                assert(a =~= seq![a[0]] + a.skip(1));
                assert(b =~= seq![b[0]] + b.skip(1));
            }
        }
        law_text_order_alone(a);
    }
    law_text_order_alone(a);
}

proof fn law_text_order_alone(a: Seq<char>)
    ensures
        !text_before(a, a),
    decreases a.len(),
{
    if a.len() > 0 {
        law_text_order_alone(a.skip(1));
    }
}

// ---------------------------------------------------------------------------
// Equality
// ---------------------------------------------------------------------------

/// A value holds no number with a fraction.
pub open spec fn is_whole(a: JsonView) -> bool
    decreases a,
{
    match a {
        JsonView::Number(n) => !(n is Real),
        JsonView::Array(items) => forall|i: int|
            0 <= i < items.len() ==> is_whole(#[trigger] items[i]),
        JsonView::Object(members) => forall|i: int|
            0 <= i < members.len() ==> is_whole((#[trigger] members[i]).1),
        _ => true,
    }
}

/// Values are equal where they are the same, and, but for numbers with a fraction,
/// nowhere else.
pub proof fn law_same_json(a: JsonView, b: JsonView)
    ensures
        a == b ==> same_json(a, b),
        is_whole(a) && same_json(a, b) ==> a == b,
        same_json(a, b) == same_json(b, a),
    decreases a,
{
    if a == b {
        crate::json::law_same_json_reflexive(a);
    }
    match (a, b) {
        (JsonView::Array(x), JsonView::Array(y)) => {
            if x.len() == y.len() {
                assert forall|i: int| 0 <= i < x.len() implies {
                    &&& same_json(#[trigger] x[i], y[i]) == same_json(y[i], x[i])
                    &&& is_whole(x[i]) && same_json(x[i], y[i]) ==> x[i] == y[i]
                } by {
                    assert(decreases_to!(a => a->Array_0));
                    assert(decreases_to!(x => x[i]));
                    law_same_json(x[i], y[i]);
                }
                if is_whole(a) && same_json(a, b) {
                    assert(x =~= y);
                }
                if same_json(a, b) {
                    assert forall|i: int| 0 <= i < y.len() implies same_json(
                        #[trigger] y[i],
                        x[i],
                    ) by {
                        assert(same_json(x[i], y[i]));
                    }
                }
                if same_json(b, a) {
                    assert forall|i: int| 0 <= i < x.len() implies same_json(
                        #[trigger] x[i],
                        y[i],
                    ) by {
                        assert(same_json(y[i], x[i]));
                    }
                }
            }
        },
        (JsonView::Object(x), JsonView::Object(y)) => {
            if x.len() == y.len() {
                assert forall|i: int| 0 <= i < x.len() implies {
                    &&& same_json((#[trigger] x[i]).1, y[i].1) == same_json(y[i].1, x[i].1)
                    &&& is_whole(x[i].1) && same_json(x[i].1, y[i].1) ==> x[i].1 == y[i].1
                } by {
                    assert(decreases_to!(a => a->Object_0));
                    assert(decreases_to!(x => x[i]));
                    assert(decreases_to!(x[i] => x[i].1));
                    law_same_json(x[i].1, y[i].1);
                }
                if is_whole(a) && same_json(a, b) {
                    assert forall|i: int| 0 <= i < x.len() implies x[i] == y[i] by {
                        assert(x[i].0 == y[i].0 && same_json(x[i].1, y[i].1));
                    }
                    assert(x =~= y);
                }
                if same_json(a, b) {
                    assert forall|i: int| 0 <= i < y.len() implies (#[trigger] y[i]).0 == x[i].0
                        && same_json(y[i].1, x[i].1) by {
                        assert(x[i].0 == y[i].0 && same_json(x[i].1, y[i].1));
                    }
                }
                if same_json(b, a) {
                    assert forall|i: int| 0 <= i < x.len() implies (#[trigger] x[i]).0 == y[i].0
                        && same_json(x[i].1, y[i].1) by {
                        assert(y[i].0 == x[i].0 && same_json(y[i].1, x[i].1));
                    }
                }
            }
        },
        _ => {},
    }
}

/// Doubles are ordered by their bits where they are positive, the other way round
/// where they are negative, and the two zeros are equal.
pub proof fn law_real_rank(a: u64, b: u64)
    ensures
        a < 0x8000_0000_0000_0000 && b < 0x8000_0000_0000_0000 ==> (real_rank(a) < real_rank(b)
            <==> a < b),
        a >= 0x8000_0000_0000_0000 && b >= 0x8000_0000_0000_0000 ==> (real_rank(a) < real_rank(b)
            <==> b < a),
        a >= 0x8000_0000_0000_0000 && b < 0x8000_0000_0000_0000 ==> real_rank(a) <= real_rank(b),
        real_rank(0x8000_0000_0000_0000) == real_rank(0),
        real_rank(a) == real_rank(b) ==> a == b || real_rank(a) == real_rank(0),
{
}

/// A number scaled up is so many times larger.
proof fn lemma_scaled_up(m: nat, k: nat)
    ensures
        scaled(m, k as int) == Some(m * pow2(k)),
    decreases k,
{
    if k == 0 {
        lemma2_to64();
        assert(m * 1 == m);
    } else {
        lemma_scaled_up(2 * m, (k - 1) as nat);
        lemma_pow2_unfold(k);
        let p = pow2((k - 1) as nat);
        assert((2 * m) * p == m * (2 * p)) by (nonlinear_arith);
    }
}

/// A number scaled down is the one that gives it back when it is scaled up.
proof fn lemma_scaled_down(m: nat, k: nat, n: nat)
    ensures
        scaled(m, -(k as int)) == Some(n) <==> n * pow2(k) == m,
    decreases k,
{
    if k == 0 {
        lemma2_to64();
        assert(n * 1 == n);
        assert(scaled(m, 0) == Some(m));
    } else {
        lemma_pow2_unfold(k);
        let p = pow2((k - 1) as nat);
        assert(n * (2 * p) == 2 * (n * p)) by (nonlinear_arith);
        if m % 2 == 0 {
            lemma_scaled_down(m / 2, (k - 1) as nat, n);
            assert(scaled(m, -(k as int)) == scaled(m / 2, -(k as int) + 1));
        }
    }
}

/// A double is the whole number whose size, times two to the power of 1075, is the
/// significand times two to the power of the exponent that stands in the bits, and
/// whose sign is that of the highest bit. It is no whole number where there is none
/// such.
pub proof fn law_real_integer(bits: u64, n: int)
    ensures
        ({
            let exponent = (bits / 0x10_0000_0000_0000) % 0x800;
            let fraction = bits % 0x10_0000_0000_0000;
            let size: nat = if n < 0 {
                (-n) as nat
            } else {
                n as nat
            };
            real_integer(bits) == Some(n) <==> {
                &&& n < 0 ==> bits >= 0x8000_0000_0000_0000
                &&& n > 0 ==> bits < 0x8000_0000_0000_0000
                &&& if exponent == 0 {
                    size * pow2(1075) == 2 * fraction
                } else {
                    size * pow2(1075) == (0x10_0000_0000_0000 + fraction) * pow2(exponent as nat)
                }
            }
        }),
{
    let exponent = (bits / 0x10_0000_0000_0000) % 0x800;
    let fraction = bits % 0x10_0000_0000_0000;
    let size: nat = if n < 0 {
        (-n) as nat
    } else {
        n as nat
    };
    if exponent == 0 {
        lemma_scaled_down(fraction as nat, 1074, size);
        lemma_pow2_unfold(1075);
        let p = pow2(1074);
        assert(size * (2 * p) == 2 * (size * p)) by (nonlinear_arith);
    } else {
        let m = (fraction + 0x10_0000_0000_0000) as nat;
        if exponent <= 1075 {
            let down = (1075 - exponent) as nat;
            lemma_scaled_down(m, down, size);
            lemma_pow2_adds(down, exponent as nat);
            lemma_pow2_pos(exponent as nat);
            let d = pow2(down);
            let e = pow2(exponent as nat);
            assert(size * (d * e) == m * e <==> size * d == m) by (nonlinear_arith)
                requires
                    e > 0,
            ;
        } else {
            let up = (exponent - 1075) as nat;
            lemma_scaled_up(m, up);
            lemma_pow2_adds(up, 1075);
            lemma_pow2_pos(1075);
            let u = pow2(up);
            let e = pow2(1075);
            assert(size * e == m * (u * e) <==> size == m * u) by (nonlinear_arith)
                requires
                    e > 0,
            ;
        }
    }
}

/// A double that is a whole number of 64 bits with a sign is taken as that number, and
/// the one just above the largest as the largest. Others are not taken.
pub proof fn law_whole_number(bits: u64)
    ensures
        match real_integer(bits) {
            Some(n) => {
                &&& i64::MIN <= n <= i64::MAX ==> whole_number(bits) is Some && whole_number(bits)->0
                    == n
                &&& n == i64::MAX + 1 ==> whole_number(bits) == Some(i64::MAX)
                &&& n < i64::MIN || n > i64::MAX + 1 ==> whole_number(bits) is None
            },
            None => whole_number(bits) is None,
        },
{
}

} // verus!
