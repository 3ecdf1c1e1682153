//! Synthetic names: a fixed prefix followed by a counter in decimal.

use vstd::prelude::*;
use vstd::string::*;

verus! {

/// The character that writes the digit `d` (meaningful for `d < 10`).
pub open spec fn digit_char(d: nat) -> char {
    if d == 0 {
        '0'
    } else if d == 1 {
        '1'
    } else if d == 2 {
        '2'
    } else if d == 3 {
        '3'
    } else if d == 4 {
        '4'
    } else if d == 5 {
        '5'
    } else if d == 6 {
        '6'
    } else if d == 7 {
        '7'
    } else if d == 8 {
        '8'
    } else {
        '9'
    }
}

/// The decimal notation of `n`, most significant digit first, without
/// leading zeros (`0` is written "0").
pub open spec fn decimal_digits(n: nat) -> Seq<char>
    decreases n,
{
    if n < 10 {
        seq![digit_char(n)]
    } else {
        decimal_digits(n / 10).push(digit_char(n % 10))
    }
}

/// The name of the register with index `n`: "r" and the index.
pub open spec fn register_name(n: nat) -> Seq<char> {
    seq!['r'] + decimal_digits(n)
}

/// The name of the interned static value with index `n`: "static" and the index.
pub open spec fn static_name(n: nat) -> Seq<char> {
    seq!['s', 't', 'a', 't', 'i', 'c'] + decimal_digits(n)
}

/// The name of the anonymous block with index `n`: "_" and the index.
pub open spec fn anon_block_name(n: nat) -> Seq<char> {
    seq!['_'] + decimal_digits(n)
}

/// The name of the entry block.
pub open spec fn entry_name() -> Seq<char> {
    seq!['m', 'a', 'i', 'n']
}

/// Decimal notation is never empty.
pub proof fn lemma_decimal_nonempty(n: nat)
    ensures
        decimal_digits(n).len() >= 1,
    decreases n,
{
    if n >= 10 {
        lemma_decimal_nonempty(n / 10);
    }
}

/// Two numbers with the same decimal notation are the same number.
pub proof fn lemma_decimal_injective(a: nat, b: nat)
    requires
        decimal_digits(a) == decimal_digits(b),
    ensures
        a == b,
    decreases a,
{
    lemma_decimal_nonempty(a / 10);
    lemma_decimal_nonempty(b / 10);
    let da = decimal_digits(a / 10);
    let db = decimal_digits(b / 10);
    if a < 10 && b < 10 {
        assert(decimal_digits(a)[0] == digit_char(a));
        assert(decimal_digits(b)[0] == digit_char(b));
    } else if a >= 10 && b >= 10 {
        assert(decimal_digits(a) == da.push(digit_char(a % 10)));
        assert(decimal_digits(b) == db.push(digit_char(b % 10)));
        assert(da.push(digit_char(a % 10)).last() == digit_char(a % 10));
        assert(db.push(digit_char(b % 10)).last() == digit_char(b % 10));
        assert(da =~= da.push(digit_char(a % 10)).drop_last());
        assert(db =~= db.push(digit_char(b % 10)).drop_last());
        lemma_decimal_injective(a / 10, b / 10);
        assert(a % 10 == b % 10);
    } else if a < 10 {
        assert(decimal_digits(a).len() == 1);
        assert(decimal_digits(b).len() == db.len() + 1);
    } else {
        assert(decimal_digits(b).len() == 1);
        assert(decimal_digits(a).len() == da.len() + 1);
    }
}

/// Two names with the same prefix and different indices are different names.
pub proof fn lemma_numbered_names_distinct(prefix: Seq<char>, i: nat, j: nat)
    requires
        i != j,
    ensures
        prefix + decimal_digits(i) != prefix + decimal_digits(j),
{
    let a = prefix + decimal_digits(i);
    let b = prefix + decimal_digits(j);
    if a == b {
        assert(decimal_digits(i) =~= a.subrange(prefix.len() as int, a.len() as int));
        assert(decimal_digits(j) =~= b.subrange(prefix.len() as int, b.len() as int));
        lemma_decimal_injective(i, j);
    }
}

/// Register uniqueness: registers with different indices have different names.
pub proof fn lemma_register_names_distinct(i: nat, j: nat)
    requires
        i != j,
    ensures
        register_name(i) != register_name(j),
{
    lemma_numbered_names_distinct(seq!['r'], i, j);
}

/// Static-name uniqueness: static values with different indices have different names.
pub proof fn lemma_static_names_distinct(i: nat, j: nat)
    requires
        i != j,
    ensures
        static_name(i) != static_name(j),
{
    lemma_numbered_names_distinct(seq!['s', 't', 'a', 't', 'i', 'c'], i, j);
}

/// Anonymous blocks with different indices have different names.
pub proof fn lemma_block_names_distinct(i: nat, j: nat)
    requires
        i != j,
    ensures
        anon_block_name(i) != anon_block_name(j),
{
    lemma_numbered_names_distinct(seq!['_'], i, j);
}

/// The kinds of names do not overlap: no static name is the name of an
/// anonymous block, and no anonymous block has the name of the entry block.
pub proof fn lemma_name_kinds_disjoint(i: nat, j: nat)
    ensures
        static_name(i) != anon_block_name(j),
        anon_block_name(j) != entry_name(),
        static_name(i) != entry_name(),
{
    assert(static_name(i)[0] == 's');
    assert(anon_block_name(j)[0] == '_');
    assert(entry_name()[0] == 'm');
}

/// Appends the decimal notation of `n` to `buf`.
pub fn append_decimal(n: usize, buf: &mut String)
    ensures
        final(buf)@ == old(buf)@ + decimal_digits(n as nat),
    decreases n,
{
    if n >= 10 {
        append_decimal(n / 10, buf);
    }
    let d: usize = n % 10;
    proof {
        reveal_strlit("0");
        reveal_strlit("1");
        reveal_strlit("2");
        reveal_strlit("3");
        reveal_strlit("4");
        reveal_strlit("5");
        reveal_strlit("6");
        reveal_strlit("7");
        reveal_strlit("8");
        reveal_strlit("9");
    }
    let digit: &str = if d == 0 {
        "0"
    } else if d == 1 {
        "1"
    } else if d == 2 {
        "2"
    } else if d == 3 {
        "3"
    } else if d == 4 {
        "4"
    } else if d == 5 {
        "5"
    } else if d == 6 {
        "6"
    } else if d == 7 {
        "7"
    } else if d == 8 {
        "8"
    } else {
        "9"
    };
    assert(digit@ =~= seq![digit_char(d as nat)]);
    buf.append(digit);
    assert(final(buf)@ =~= old(buf)@ + decimal_digits(n as nat));
}

/// Builds `prefix` followed by the decimal notation of `n`.
pub fn numbered_name(prefix: &str, n: usize) -> (name: String)
    ensures
        name@ == prefix@ + decimal_digits(n as nat),
{
    let mut name = String::from_str(prefix);
    append_decimal(n, &mut name);
    name
}

} // verus!
