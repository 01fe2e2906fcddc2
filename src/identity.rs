//! Cache keys for cells: a key that the caller names, or one derived from
//! the scope instance and the cell's ordinal within it.
use vstd::prelude::*;
use crate::hex::push_char;

verus! {

/// Who a cell is.
pub enum CellIdentity {
    /// A key that the caller chose.
    Explicit(String),
    /// The `ordinal`-th anonymous cell of the scope instance `scope`.
    Slot { scope: u64, ordinal: u64 },
}

/// The character of a decimal digit.
pub open spec fn dec_digit(n: nat) -> char {
    ((('0' as int) + (n % 10)) as char)
}

/// The decimal numeral of `n`, without leading zeros.
pub open spec fn decimal(n: nat) -> Seq<char>
    decreases n,
{
    if n < 10 {
        seq![dec_digit(n)]
    } else {
        decimal(n / 10).push(dec_digit(n % 10))
    }
}

/// The key of an anonymous cell: the scope's numeral, a colon, the ordinal's
/// numeral.
pub open spec fn slot_key(scope: nat, ordinal: nat) -> Seq<char> {
    decimal(scope).push(':') + decimal(ordinal)
}

/// The key that an identity stands for.
pub open spec fn key_of(id: CellIdentity) -> Seq<char> {
    match id {
        CellIdentity::Explicit(k) => k@,
        CellIdentity::Slot { scope, ordinal } => slot_key(scope as nat, ordinal as nat),
    }
}

fn push_decimal(out: &mut String, n: u64)
    ensures
        final(out)@ == old(out)@ + decimal(n as nat),
    decreases n,
{
    if n >= 10 {
        push_decimal(out, n / 10);
    }
    let d = (n % 10) as u8;
    push_char(out, (48u8 + d) as char);
    proof {
        assert(old(out)@ + decimal(n as nat) =~= final(out)@) by {
            if n >= 10 {
                assert(decimal(n as nat) == decimal((n / 10) as nat).push(dec_digit((n % 10) as nat)));
            }
        }
    }
}

/// The cache key of a cell. Two identities give one key only where they are
/// the same identity, or an explicit key spells a slot key.
pub fn derive_key(id: &CellIdentity) -> (r: String)
    ensures
        r@ == key_of(*id),
{
    match id {
        CellIdentity::Explicit(k) => k.clone(),
        CellIdentity::Slot { scope, ordinal } => {
            let mut out = String::new();
            push_decimal(&mut out, *scope);
            push_char(&mut out, ':');
            push_decimal(&mut out, *ordinal);
            proof {
                assert(out@ =~= slot_key(*scope as nat, *ordinal as nat));
            }
            out
        },
    }
}

proof fn lemma_decimal_digits(n: nat)
    ensures
        decimal(n).len() >= 1,
        forall|i: int| 0 <= i < decimal(n).len() ==> '0' <= #[trigger] decimal(n)[i] <= '9',
    decreases n,
{
    if n >= 10 {
        lemma_decimal_digits(n / 10);
        let p = decimal(n / 10);
        assert forall|i: int| 0 <= i < decimal(n).len() implies '0' <= #[trigger] decimal(n)[i]
            <= '9' by {
            if i < p.len() {
                assert(decimal(n)[i] == p[i]);
            }
        }
    }
}

proof fn lemma_dec_digit_injective(x: nat, y: nat)
    requires
        dec_digit(x) == dec_digit(y),
    ensures
        x % 10 == y % 10,
{
    assert(dec_digit(x) as int == '0' as int + x % 10);
    assert(dec_digit(y) as int == '0' as int + y % 10);
}

proof fn lemma_decimal_injective(a: nat, b: nat)
    requires
        decimal(a) == decimal(b),
    ensures
        a == b,
    decreases a,
{
    lemma_decimal_digits(a / 10);
    lemma_decimal_digits(b / 10);
    if a < 10 && b < 10 {
        assert(decimal(a) == seq![dec_digit(a)]);
        assert(decimal(b) == seq![dec_digit(b)]);
        assert(seq![dec_digit(a)][0] == dec_digit(a));
        assert(seq![dec_digit(b)][0] == dec_digit(b));
        lemma_dec_digit_injective(a, b);
    } else if a < 10 {
        assert(decimal(b).len() >= 2);
    } else if b < 10 {
        assert(decimal(a).len() >= 2);
    } else {
        let da = decimal(a);
        assert(da.last() == dec_digit(a % 10));
        assert(decimal(b).last() == dec_digit(b % 10));
        assert(decimal(a / 10) == da.drop_last());
        assert(decimal(b / 10) == decimal(b).drop_last());
        lemma_dec_digit_injective(a % 10, b % 10);
        lemma_decimal_injective(a / 10, b / 10);
    }
}

/// Distinct anonymous cells never share a key: the key gives back the scope
/// and the ordinal.
pub proof fn lemma_slot_key_injective(s1: nat, o1: nat, s2: nat, o2: nat)
    requires
        slot_key(s1, o1) == slot_key(s2, o2),
    ensures
        s1 == s2,
        o1 == o2,
{
    let d1 = decimal(s1);
    let d2 = decimal(s2);
    let k = slot_key(s1, o1);
    lemma_decimal_digits(s1);
    lemma_decimal_digits(s2);
    lemma_decimal_digits(o1);
    lemma_decimal_digits(o2);
    if d1.len() < d2.len() {
        assert(k[d1.len() as int] == ':');
        assert(slot_key(s2, o2)[d1.len() as int] == d2[d1.len() as int]);
    } else if d2.len() < d1.len() {
        assert(slot_key(s2, o2)[d2.len() as int] == ':');
        assert(k[d2.len() as int] == d1[d2.len() as int]);
    }
    assert(d1 =~= k.subrange(0, d1.len() as int));
    assert(d2 =~= slot_key(s2, o2).subrange(0, d2.len() as int));
    lemma_decimal_injective(s1, s2);
    assert(decimal(o1) =~= k.subrange(d1.len() as int + 1, k.len() as int));
    assert(decimal(o2) =~= slot_key(s2, o2).subrange(d2.len() as int + 1, k.len() as int));
    lemma_decimal_injective(o1, o2);
}

} // verus!
