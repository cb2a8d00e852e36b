//! Group keys: the text under which a group-by result files its group.
use vstd::prelude::*;
use crate::value::{lemma_view_entries_len, lemma_view_items_len, view_entries, view_items, Value, ValueV};

verus! {

/// The character of a decimal digit.
pub open spec fn digit_char(d: nat) -> char {
    if d == 0 { '0' }
    else if d == 1 { '1' }
    else if d == 2 { '2' }
    else if d == 3 { '3' }
    else if d == 4 { '4' }
    else if d == 5 { '5' }
    else if d == 6 { '6' }
    else if d == 7 { '7' }
    else if d == 8 { '8' }
    else { '9' }
}

/// The decimal digits of `n`, most significant first.
pub open spec fn decimal(n: nat) -> Seq<char>
    decreases n,
{
    if n < 10 {
        seq![digit_char(n)]
    } else {
        decimal(n / 10) + seq![digit_char(n % 10)]
    }
}

/// A length, written in decimal and closed by a colon.
pub open spec fn length_prefix(n: nat) -> Seq<char> {
    decimal(n) + seq![':']
}

/// The key text of a string: its length, then its characters.
pub open spec fn str_text(s: Seq<char>) -> Seq<char> {
    seq!['s'] + length_prefix(s.len()) + s
}

/// The key text of a value. Every kind of value has its own leading letter,
/// integers end in `;`, and strings, arrays and objects give their length
/// first, so that no key text is a proper prefix of another.
pub open spec fn key_text(v: ValueV) -> Seq<char>
    decreases v,
{
    match v {
        ValueV::Null => seq!['n'],
        ValueV::Bool(b) => if b { seq!['t'] } else { seq!['f'] },
        ValueV::Int(x) => if x >= 0 {
            seq!['i'] + decimal(x as nat) + seq![';']
        } else {
            seq!['m'] + decimal((-x) as nat) + seq![';']
        },
        ValueV::Str(s) => str_text(s),
        ValueV::Array(items) => seq!['a'] + length_prefix(items.len()) + items_text(items),
        ValueV::Object(entries) => seq!['o'] + length_prefix(entries.len()) + entries_text(entries),
    }
}

/// The key texts of the items, one after the other.
pub open spec fn items_text(items: Seq<ValueV>) -> Seq<char>
    decreases items,
{
    if items.len() == 0 {
        Seq::empty()
    } else {
        items_text(items.drop_last()) + key_text(items.last())
    }
}

/// The key texts of the entries' names and values, one after the other.
pub open spec fn entries_text(entries: Seq<(Seq<char>, ValueV)>) -> Seq<char>
    decreases entries,
{
    if entries.len() == 0 {
        Seq::empty()
    } else {
        entries_text(entries.drop_last()) + str_text(entries.last().0) + key_text(entries.last().1)
    }
}

/// Appends the decimal digit `d`.
fn push_digit(out: &mut String, d: u64)
    requires
        d < 10,
    ensures
        final(out)@ == old(out)@ + seq![digit_char(d as nat)],
{
    proof {
        reveal_strlit("0");
        reveal_strlit("1");
        reveal_strlit("2");
        reveal_strlit("3");
        reveal_strlit("4");
        reveal_strlit("5");
        reveal_strlit("6");
        reveal_strlit("7");
        reveal_strlit("8");
        reveal_strlit("9");
    }
    if d == 0 {
        out.append("0");
    } else if d == 1 {
        out.append("1");
    } else if d == 2 {
        out.append("2");
    } else if d == 3 {
        out.append("3");
    } else if d == 4 {
        out.append("4");
    } else if d == 5 {
        out.append("5");
    } else if d == 6 {
        out.append("6");
    } else if d == 7 {
        out.append("7");
    } else if d == 8 {
        out.append("8");
    } else {
        out.append("9");
    }
}

/// Appends the decimal digits of `n`.
fn push_decimal(out: &mut String, n: u64)
    ensures
        final(out)@ == old(out)@ + decimal(n as nat),
    decreases n,
{
    if n >= 10 {
        push_decimal(out, n / 10);
        push_digit(out, n % 10);
        proof {
            assert(final(out)@ =~= old(out)@ + decimal(n as nat)) by {
                assert((n as nat) / 10 == (n / 10) as nat);
            }
        }
    } else {
        push_digit(out, n);
        proof {
            assert(final(out)@ =~= old(out)@ + decimal(n as nat));
        }
    }
}

/// Appends one character given as a one-letter literal.
fn push_lit(out: &mut String, lit: &str)
    ensures
        final(out)@ == old(out)@ + lit@,
{
    out.append(lit);
}

/// Appends a length and its closing colon.
fn push_length(out: &mut String, n: usize)
    ensures
        final(out)@ == old(out)@ + length_prefix(n as nat),
{
    push_decimal(out, n as u64);
    proof {
        reveal_strlit(":");
    }
    push_lit(out, ":");
    proof {
        assert(final(out)@ =~= old(out)@ + length_prefix(n as nat));
    }
}

/// Appends the key text of a string.
fn push_str_key(out: &mut String, s: &String)
    ensures
        final(out)@ == old(out)@ + str_text(s@),
{
    proof {
        reveal_strlit("s");
    }
    push_lit(out, "s");
    push_length(out, s.unicode_len());
    out.append(s.as_str());
    proof {
        assert(final(out)@ =~= old(out)@ + str_text(s@));
    }
}

/// Appends the key text of `v`.
pub fn push_key(out: &mut String, v: &Value)
    ensures
        final(out)@ == old(out)@ + key_text(v@),
    decreases v,
{
    proof {
        reveal_strlit("n");
        reveal_strlit("t");
        reveal_strlit("f");
        reveal_strlit("i");
        reveal_strlit("m");
        reveal_strlit(";");
        reveal_strlit("a");
        reveal_strlit("o");
    }
    match v {
        Value::Null => {
            push_lit(out, "n");
        },
        Value::Bool(b) => {
            if *b {
                push_lit(out, "t");
            } else {
                push_lit(out, "f");
            }
        },
        Value::I64(x) => {
            if *x >= 0 {
                push_lit(out, "i");
                push_decimal(out, *x as u64);
            } else {
                push_lit(out, "m");
                let m: u64 = ((-(*x + 1)) as u64) + 1;
                push_decimal(out, m);
            }
            push_lit(out, ";");
            proof {
                assert(final(out)@ =~= old(out)@ + key_text(v@));
            }
        },
        Value::String(s) => {
            push_str_key(out, s);
        },
        Value::Array(items) => {
            push_lit(out, "a");
            push_length(out, items.len());
            let ghost start = out@;
            let mut i: usize = 0;
            while i < items.len()
                invariant
                    i <= items.len(),
                    *v == Value::Array(*items),
                    out@ == start + items_text(view_items(items@.subrange(0, i as int))),
                decreases items.len() - i,
            {
                proof {
                    let w = v->Array_0;
                    assert(decreases_to!(*v => w));
                    assert(decreases_to!(w => w@));
                    assert(decreases_to!(w@ => w@[i as int]));
                }
                push_key(out, &items[i]);
                proof {
                    let pre = items@.subrange(0, i as int);
                    let next = items@.subrange(0, i + 1);
                    assert(next.drop_last() =~= pre);
                    assert(view_items(next) == view_items(pre).push(items@[i as int]@));
                    assert(view_items(next).drop_last() =~= view_items(pre));
                }
                i += 1;
            }
            proof {
                assert(items@.subrange(0, i as int) =~= items@);
                lemma_view_items_len(items@);
                assert(out@ =~= old(out)@ + key_text(v@));
            }
        },
        Value::Object(entries) => {
            push_lit(out, "o");
            push_length(out, entries.len());
            let ghost start = out@;
            let mut i: usize = 0;
            while i < entries.len()
                invariant
                    i <= entries.len(),
                    *v == Value::Object(*entries),
                    out@ == start + entries_text(view_entries(entries@.subrange(0, i as int))),
                decreases entries.len() - i,
            {
                proof {
                    let w = v->Object_0;
                    assert(decreases_to!(*v => w));
                    assert(decreases_to!(w => w@));
                    assert(decreases_to!(w@ => w@[i as int]));
                    assert(decreases_to!(w@[i as int] => w@[i as int].1));
                }
                push_str_key(out, &entries[i].0);
                push_key(out, &entries[i].1);
                proof {
                    let pre = entries@.subrange(0, i as int);
                    let next = entries@.subrange(0, i + 1);
                    assert(next.drop_last() =~= pre);
                    assert(view_entries(next) == view_entries(pre).push((entries@[i as int].0@, entries@[i as int].1@)));
                    assert(view_entries(next).drop_last() =~= view_entries(pre));
                }
                i += 1;
            }
            proof {
                assert(entries@.subrange(0, i as int) =~= entries@);
                lemma_view_entries_len(entries@);
                assert(out@ =~= old(out)@ + key_text(v@));
            }
        },
    }
}

/// The key text of a group-by result.
pub fn group_key(v: &Value) -> (r: String)
    ensures
        r@ == key_text(v@),
{
    let mut out = String::new();
    push_key(&mut out, v);
    proof {
        assert(out@ =~= key_text(v@));
    }
    out
}

/// A character that `decimal` may produce.
pub open spec fn is_digit(c: char) -> bool {
    c == '0' || c == '1' || c == '2' || c == '3' || c == '4' || c == '5' || c == '6' || c == '7' || c == '8' || c == '9'
}

proof fn lemma_split_equal<T>(a: Seq<T>, b: Seq<T>, c: Seq<T>, d: Seq<T>)
    requires
        a + b == c + d,
        a.len() == c.len(),
    ensures
        a == c,
        b == d,
{
    assert(a =~= (a + b).subrange(0, a.len() as int));
    assert(c =~= (c + d).subrange(0, c.len() as int));
    assert(b =~= (a + b).subrange(a.len() as int, (a + b).len() as int));
    assert(d =~= (c + d).subrange(c.len() as int, (c + d).len() as int));
}

proof fn lemma_decimal_digits(n: nat)
    ensures
        decimal(n).len() >= 1,
        n >= 10 ==> decimal(n).len() >= 2,
        forall|i: int| 0 <= i < decimal(n).len() ==> is_digit(#[trigger] decimal(n)[i]),
    decreases n,
{
    if n >= 10 {
        lemma_decimal_digits(n / 10);
        let d = decimal(n / 10);
        assert forall|i: int| 0 <= i < decimal(n).len() implies is_digit(#[trigger] decimal(n)[i]) by {
            if i < d.len() {
                assert(decimal(n)[i] == d[i]);
            }
        }
    }
}

proof fn lemma_digit_char_injective(a: nat, b: nat)
    requires
        a < 10,
        b < 10,
        digit_char(a) == digit_char(b),
    ensures
        a == b,
{
}

proof fn lemma_decimal_injective(n: nat, m: nat)
    requires
        decimal(n) == decimal(m),
    ensures
        n == m,
    decreases n,
{
    lemma_decimal_digits(n);
    lemma_decimal_digits(m);
    if n < 10 && m < 10 {
        assert(decimal(n) == seq![digit_char(n)]);
        assert(decimal(m) == seq![digit_char(m)]);
        assert(seq![digit_char(n)][0] == digit_char(n));
        assert(seq![digit_char(m)][0] == digit_char(m));
        lemma_digit_char_injective(n, m);
    } else if n >= 10 && m >= 10 {
        lemma_decimal_digits(n / 10);
        lemma_decimal_digits(m / 10);
        let dn = decimal(n);
        assert(dn[dn.len() - 1] == digit_char(n % 10));
        assert(decimal(m)[decimal(m).len() - 1] == digit_char(m % 10));
        lemma_digit_char_injective(n % 10, m % 10);
        assert(decimal(n / 10) =~= dn.drop_last());
        assert(decimal(m / 10) =~= decimal(m).drop_last());
        lemma_decimal_injective(n / 10, m / 10);
    } else {
        assert(decimal(n).len() != decimal(m).len());
    }
}

/// Digits followed by a separator that is no digit can be read back.
proof fn lemma_split_at_separator(d1: Seq<char>, d2: Seq<char>, sep: char, r1: Seq<char>, r2: Seq<char>)
    requires
        !is_digit(sep),
        forall|i: int| 0 <= i < d1.len() ==> is_digit(#[trigger] d1[i]),
        forall|i: int| 0 <= i < d2.len() ==> is_digit(#[trigger] d2[i]),
        d1 + (seq![sep] + r1) == d2 + (seq![sep] + r2),
    ensures
        d1 == d2,
        r1 == r2,
{
    let l = d1 + (seq![sep] + r1);
    if d1.len() < d2.len() {
        assert(l[d1.len() as int] == sep);
        assert(l[d1.len() as int] == d2[d1.len() as int]);
    } else if d2.len() < d1.len() {
        assert(l[d2.len() as int] == d1[d2.len() as int]);
        assert((d2 + (seq![sep] + r2))[d2.len() as int] == sep);
    }
    lemma_split_equal(d1, seq![sep] + r1, d2, seq![sep] + r2);
    assert(r1 =~= (seq![sep] + r1).drop_first());
    assert(r2 =~= (seq![sep] + r2).drop_first());
}

/// A length prefix followed by anything can be read back.
proof fn lemma_length_prefix(n: nat, m: nat, r1: Seq<char>, r2: Seq<char>)
    requires
        length_prefix(n) + r1 == length_prefix(m) + r2,
    ensures
        n == m,
        r1 == r2,
{
    lemma_decimal_digits(n);
    lemma_decimal_digits(m);
    assert(length_prefix(n) + r1 =~= decimal(n) + (seq![':'] + r1));
    assert(length_prefix(m) + r2 =~= decimal(m) + (seq![':'] + r2));
    lemma_split_at_separator(decimal(n), decimal(m), ':', r1, r2);
    lemma_decimal_injective(n, m);
}

proof fn lemma_str_text_parse(s1: Seq<char>, s2: Seq<char>, r1: Seq<char>, r2: Seq<char>)
    requires
        str_text(s1) + r1 == str_text(s2) + r2,
    ensures
        s1 == s2,
        r1 == r2,
{
    assert(str_text(s1) + r1 =~= seq!['s'] + (length_prefix(s1.len()) + (s1 + r1)));
    assert(str_text(s2) + r2 =~= seq!['s'] + (length_prefix(s2.len()) + (s2 + r2)));
    lemma_split_equal(seq!['s'], length_prefix(s1.len()) + (s1 + r1), seq!['s'], length_prefix(s2.len()) + (s2 + r2));
    lemma_length_prefix(s1.len(), s2.len(), s1 + r1, s2 + r2);
    lemma_split_equal(s1, r1, s2, r2);
}

proof fn lemma_items_text_front(items: Seq<ValueV>)
    requires
        items.len() > 0,
    ensures
        items_text(items) == key_text(items[0]) + items_text(items.drop_first()),
    decreases items.len(),
{
    if items.len() == 1 {
        assert(items.drop_last() =~= Seq::<ValueV>::empty());
        assert(items.drop_first() =~= Seq::<ValueV>::empty());
        assert(items_text(items) =~= key_text(items[0]) + items_text(items.drop_first()));
    } else {
        lemma_items_text_front(items.drop_last());
        assert(items.drop_last().drop_first() =~= items.drop_first().drop_last());
        assert(items.drop_first().last() == items.last());
        assert(items_text(items) =~= key_text(items[0]) + items_text(items.drop_first()));
    }
}

proof fn lemma_entries_text_front(entries: Seq<(Seq<char>, ValueV)>)
    requires
        entries.len() > 0,
    ensures
        entries_text(entries) == str_text(entries[0].0) + key_text(entries[0].1) + entries_text(entries.drop_first()),
    decreases entries.len(),
{
    if entries.len() == 1 {
        assert(entries.drop_last() =~= Seq::<(Seq<char>, ValueV)>::empty());
        assert(entries.drop_first() =~= Seq::<(Seq<char>, ValueV)>::empty());
        assert(entries_text(entries) =~= str_text(entries[0].0) + key_text(entries[0].1) + entries_text(entries.drop_first()));
    } else {
        lemma_entries_text_front(entries.drop_last());
        assert(entries.drop_last().drop_first() =~= entries.drop_first().drop_last());
        assert(entries.drop_first().last() == entries.last());
        assert(entries_text(entries) =~= str_text(entries[0].0) + key_text(entries[0].1) + entries_text(entries.drop_first()));
    }
}

/// A key text followed by anything can be read back: the value and what
/// follows are determined.
#[verifier::rlimit(40)]
proof fn lemma_key_text_parse(v1: ValueV, v2: ValueV, r1: Seq<char>, r2: Seq<char>)
    requires
        key_text(v1) + r1 == key_text(v2) + r2,
    ensures
        v1 == v2,
        r1 == r2,
    decreases v1,
{
    let t1 = key_text(v1);
    let t2 = key_text(v2);
    assert((t1 + r1)[0] == t1[0]) by {
        lemma_key_text_nonempty(v1);
    }
    assert((t2 + r2)[0] == t2[0]) by {
        lemma_key_text_nonempty(v2);
    }
    let tail1 = (t1 + r1).drop_first();
    let tail2 = (t2 + r2).drop_first();
    match v1 {
        ValueV::Null => {
            assert(v2 is Null);
            assert(r1 =~= tail1);
            assert(r2 =~= tail2);
        },
        ValueV::Bool(b1) => {
            assert(v2 is Bool);
            assert(r1 =~= tail1);
            assert(r2 =~= tail2);
        },
        ValueV::Int(x1) => {
            assert(v2 is Int);
            let x2 = v2->Int_0;
            let a1: nat = if x1 >= 0 { x1 as nat } else { (-x1) as nat };
            let a2: nat = if x2 >= 0 { x2 as nat } else { (-x2) as nat };
            assert(tail1 =~= decimal(a1) + (seq![';'] + r1));
            assert(tail2 =~= decimal(a2) + (seq![';'] + r2));
            lemma_decimal_digits(a1);
            lemma_decimal_digits(a2);
            lemma_split_at_separator(decimal(a1), decimal(a2), ';', r1, r2);
            lemma_decimal_injective(a1, a2);
        },
        ValueV::Str(s1) => {
            assert(v2 is Str);
            lemma_str_text_parse(s1, v2->Str_0, r1, r2);
        },
        ValueV::Array(items1) => {
            assert(v2 is Array);
            let items2 = v2->Array_0;
            assert(tail1 =~= length_prefix(items1.len()) + (items_text(items1) + r1));
            assert(tail2 =~= length_prefix(items2.len()) + (items_text(items2) + r2));
            lemma_length_prefix(items1.len(), items2.len(), items_text(items1) + r1, items_text(items2) + r2);
            lemma_items_text_parse(items1, items2, r1, r2);
        },
        ValueV::Object(entries1) => {
            assert(v2 is Object);
            let entries2 = v2->Object_0;
            assert(tail1 =~= length_prefix(entries1.len()) + (entries_text(entries1) + r1));
            assert(tail2 =~= length_prefix(entries2.len()) + (entries_text(entries2) + r2));
            lemma_length_prefix(entries1.len(), entries2.len(), entries_text(entries1) + r1, entries_text(entries2) + r2);
            lemma_entries_text_parse(entries1, entries2, r1, r2);
        },
    }
}

proof fn lemma_key_text_nonempty(v: ValueV)
    ensures
        key_text(v).len() >= 1,
{
}

proof fn lemma_items_text_parse(items1: Seq<ValueV>, items2: Seq<ValueV>, r1: Seq<char>, r2: Seq<char>)
    requires
        items1.len() == items2.len(),
        items_text(items1) + r1 == items_text(items2) + r2,
    ensures
        items1 == items2,
        r1 == r2,
    decreases items1,
{
    if items1.len() == 0 {
        assert(items1 =~= items2);
        assert(r1 =~= items_text(items1) + r1);
        assert(r2 =~= items_text(items2) + r2);
    } else {
        lemma_items_text_front(items1);
        lemma_items_text_front(items2);
        let rest1 = items_text(items1.drop_first()) + r1;
        let rest2 = items_text(items2.drop_first()) + r2;
        assert(items_text(items1) + r1 =~= key_text(items1[0]) + rest1);
        assert(items_text(items2) + r2 =~= key_text(items2[0]) + rest2);
        assert(decreases_to!(items1 => items1[0]));
        lemma_key_text_parse(items1[0], items2[0], rest1, rest2);
        lemma_items_text_parse(items1.drop_first(), items2.drop_first(), r1, r2);
        assert(items1 =~= seq![items1[0]] + items1.drop_first());
        assert(items2 =~= seq![items2[0]] + items2.drop_first());
    }
}

proof fn lemma_entries_text_parse(entries1: Seq<(Seq<char>, ValueV)>, entries2: Seq<(Seq<char>, ValueV)>, r1: Seq<char>, r2: Seq<char>)
    requires
        entries1.len() == entries2.len(),
        entries_text(entries1) + r1 == entries_text(entries2) + r2,
    ensures
        entries1 == entries2,
        r1 == r2,
    decreases entries1,
{
    if entries1.len() == 0 {
        assert(entries1 =~= entries2);
        assert(r1 =~= entries_text(entries1) + r1);
        assert(r2 =~= entries_text(entries2) + r2);
    } else {
        lemma_entries_text_front(entries1);
        lemma_entries_text_front(entries2);
        let rest1 = key_text(entries1[0].1) + (entries_text(entries1.drop_first()) + r1);
        let rest2 = key_text(entries2[0].1) + (entries_text(entries2.drop_first()) + r2);
        assert(entries_text(entries1) + r1 =~= str_text(entries1[0].0) + rest1);
        assert(entries_text(entries2) + r2 =~= str_text(entries2[0].0) + rest2);
        lemma_str_text_parse(entries1[0].0, entries2[0].0, rest1, rest2);
        assert(decreases_to!(entries1 => entries1[0]));
        assert(decreases_to!(entries1[0] => entries1[0].1));
        lemma_key_text_parse(entries1[0].1, entries2[0].1, entries_text(entries1.drop_first()) + r1, entries_text(entries2.drop_first()) + r2);
        lemma_entries_text_parse(entries1.drop_first(), entries2.drop_first(), r1, r2);
        assert(entries1 =~= seq![entries1[0]] + entries1.drop_first());
        assert(entries2 =~= seq![entries2[0]] + entries2.drop_first());
    }
}

/// Distinct values have distinct key texts.
pub proof fn lemma_key_text_injective(v1: ValueV, v2: ValueV)
    requires
        key_text(v1) == key_text(v2),
    ensures
        v1 == v2,
{
    assert(key_text(v1) + Seq::<char>::empty() =~= key_text(v1));
    assert(key_text(v2) + Seq::<char>::empty() =~= key_text(v2));
    lemma_key_text_parse(v1, v2, Seq::empty(), Seq::empty());
}

} // verus!
