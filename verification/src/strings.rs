//! Small verified helpers for building names: decimal rendering of
//! integers and string concatenation with exact views.

use vstd::prelude::*;
use vstd::string::*;

verus! {

/// The character for one decimal digit.
pub open spec fn dec_digit(d: nat) -> char
    recommends
        d < 10,
{
    if d == 0 {
        '0'
    } else if d == 1 {
        '1'
    } else if d == 2 {
        '2'
    } else if d == 3 {
        '3'
    } else if d == 4 {
        '4'
    } else if d == 5 {
        '5'
    } else if d == 6 {
        '6'
    } else if d == 7 {
        '7'
    } else if d == 8 {
        '8'
    } else {
        '9'
    }
}

/// Decimal representation of `n`, most significant digit first, with no
/// leading zero except for `n == 0` itself.
pub open spec fn dec_str(n: nat) -> Seq<char>
    decreases n,
{
    if n < 10 {
        seq![dec_digit(n)]
    } else {
        dec_str(n / 10).push(dec_digit(n % 10))
    }
}

fn digit_str(d: u64) -> (r: &'static str)
    requires
        d < 10,
    ensures
        r@ == seq![dec_digit(d as nat)],
{
    if d == 0 {
        proof {
            reveal_strlit("0");
            assert("0"@ =~= seq![dec_digit(0)]);
        }
        "0"
    } else if d == 1 {
        proof {
            reveal_strlit("1");
            assert("1"@ =~= seq![dec_digit(1)]);
        }
        "1"
    } else if d == 2 {
        proof {
            reveal_strlit("2");
            assert("2"@ =~= seq![dec_digit(2)]);
        }
        "2"
    } else if d == 3 {
        proof {
            reveal_strlit("3");
            assert("3"@ =~= seq![dec_digit(3)]);
        }
        "3"
    } else if d == 4 {
        proof {
            reveal_strlit("4");
            assert("4"@ =~= seq![dec_digit(4)]);
        }
        "4"
    } else if d == 5 {
        proof {
            reveal_strlit("5");
            assert("5"@ =~= seq![dec_digit(5)]);
        }
        "5"
    } else if d == 6 {
        proof {
            reveal_strlit("6");
            assert("6"@ =~= seq![dec_digit(6)]);
        }
        "6"
    } else if d == 7 {
        proof {
            reveal_strlit("7");
            assert("7"@ =~= seq![dec_digit(7)]);
        }
        "7"
    } else if d == 8 {
        proof {
            reveal_strlit("8");
            assert("8"@ =~= seq![dec_digit(8)]);
        }
        "8"
    } else {
        proof {
            reveal_strlit("9");
            assert("9"@ =~= seq![dec_digit(9)]);
        }
        "9"
    }
}

/// Renders `n` in decimal.
pub fn u64_to_dec_string(n: u64) -> (r: String)
    ensures
        r@ == dec_str(n as nat),
    decreases n,
{
    if n < 10 {
        let r = digit_str(n).to_owned();
        r
    } else {
        let prefix = u64_to_dec_string(n / 10);
        let digit = digit_str(n % 10);
        let r = prefix.concat(digit);
        proof {
            assert(r@ =~= dec_str(n as nat));
        }
        r
    }
}

/// Lexicographic order on names, code point by code point; a proper
/// prefix comes before its extensions.
pub open spec fn lex_leq(a: Seq<char>, b: Seq<char>) -> bool
    decreases a.len(),
{
    if a.len() == 0 {
        true
    } else if b.len() == 0 {
        false
    } else if (a.first() as u32) < (b.first() as u32) {
        true
    } else if (a.first() as u32) > (b.first() as u32) {
        false
    } else {
        lex_leq(a.drop_first(), b.drop_first())
    }
}

/// Compares two names lexicographically.
#[verifier::loop_isolation(false)]
pub fn lex_leq_str(a: &str, b: &str) -> (r: bool)
    ensures
        r == lex_leq(a@, b@),
{
    let an = a.unicode_len();
    let bn = b.unicode_len();
    proof {
        assert(a@.skip(0) =~= a@);
        assert(b@.skip(0) =~= b@);
    }
    let mut i: usize = 0;
    while i < an && i < bn
        invariant
            i <= an,
            i <= bn,
            an == a@.len(),
            bn == b@.len(),
            lex_leq(a@, b@) == lex_leq(a@.skip(i as int), b@.skip(i as int)),
        decreases an - i,
    {
        let ca = a.get_char(i);
        let cb = b.get_char(i);
        proof {
            assert(a@.skip(i as int).first() == a@[i as int]);
            assert(b@.skip(i as int).first() == b@[i as int]);
            assert(a@.skip(i as int).drop_first() =~= a@.skip(i as int + 1));
            assert(b@.skip(i as int).drop_first() =~= b@.skip(i as int + 1));
        }
        if (ca as u32) < (cb as u32) {
            return true;
        }
        if (ca as u32) > (cb as u32) {
            return false;
        }
        i = i + 1;
    }
    proof {
        if i >= an {
            assert(a@.skip(i as int).len() == 0);
        } else {
            assert(b@.skip(i as int).len() == 0);
            assert(a@.skip(i as int).len() > 0);
        }
    }
    an <= bn
}

/// The lexicographic order is total.
pub proof fn lemma_lex_leq_total(a: Seq<char>, b: Seq<char>)
    ensures
        lex_leq(a, b) || lex_leq(b, a),
    decreases a.len(),
{
    if a.len() > 0 && b.len() > 0 && (a.first() as u32) == (b.first() as u32) {
        lemma_lex_leq_total(a.drop_first(), b.drop_first());
    }
}

/// Two names below each other are one name.
pub proof fn lemma_lex_leq_antisymmetric(a: Seq<char>, b: Seq<char>)
    requires
        lex_leq(a, b),
        lex_leq(b, a),
    ensures
        a == b,
    decreases a.len(),
{
    if a.len() == 0 {
        assert(b.len() == 0);
        assert(a =~= b);
    } else {
        assert(b.len() > 0);
        assert((a.first() as u32) == (b.first() as u32));
        let x = a.first();
        let y = b.first();
        vstd::utf8::char_u32_cast(x, x as u32);
        vstd::utf8::char_u32_cast(y, y as u32);
        assert(x == y);
        lemma_lex_leq_antisymmetric(a.drop_first(), b.drop_first());
        assert forall|i: int| 0 <= i < a.len() implies a[i] == b[i] by {
            if i > 0 {
                assert(a.drop_first()[i - 1] == b.drop_first()[i - 1]);
            }
        }
        assert(a =~= b);
    }
}

/// The lexicographic order is transitive.
pub proof fn lemma_lex_leq_transitive(a: Seq<char>, b: Seq<char>, c: Seq<char>)
    requires
        lex_leq(a, b),
        lex_leq(b, c),
    ensures
        lex_leq(a, c),
    decreases a.len(),
{
    if a.len() > 0 {
        assert(b.len() > 0);
        assert(c.len() > 0);
        if (a.first() as u32) == (b.first() as u32) && (b.first() as u32) == (c.first() as u32) {
            lemma_lex_leq_transitive(a.drop_first(), b.drop_first(), c.drop_first());
        }
    }
}

/// A name list in strictly increasing lexicographic order: each name
/// below the next, none repeated.
pub open spec fn names_strictly_sorted(s: Seq<Seq<char>>) -> bool {
    forall|i: int, j: int|
        0 <= i < j < s.len() ==> lex_leq(#[trigger] s[i], #[trigger] s[j]) && s[i] != s[j]
}

/// Insertion keeps a name list strictly sorted.
pub proof fn lemma_insert_name_sorted(s: Seq<Seq<char>>, n: Seq<char>)
    requires
        names_strictly_sorted(s),
    ensures
        names_strictly_sorted(spec_insert_name(s, n)),
    decreases s.len(),
{
    if s.len() == 0 {
    } else if n == s.first() {
    } else if lex_leq(n, s.first()) {
        let t = seq![n] + s;
        assert forall|i: int, j: int|
            0 <= i < j < t.len() implies lex_leq(#[trigger] t[i], #[trigger] t[j]) && t[i]
            != t[j] by {
            if i == 0 {
                assert(t[0] == n);
                assert(t[j] == s[j - 1]);
                if j - 1 > 0 {
                    assert(lex_leq(s[0], s[j - 1]));
                    lemma_lex_leq_transitive(n, s.first(), s[j - 1]);
                    if n == s[j - 1] {
                        lemma_lex_leq_antisymmetric(n, s.first());
                    }
                }
            } else {
                assert(t[i] == s[i - 1] && t[j] == s[j - 1]);
            }
        }
    } else {
        let pre = s.drop_first();
        assert(names_strictly_sorted(pre)) by {
            assert forall|i: int, j: int|
                0 <= i < j < pre.len() implies lex_leq(#[trigger] pre[i], #[trigger] pre[j])
                && pre[i] != pre[j] by {
                assert(pre[i] == s[i + 1] && pre[j] == s[j + 1]);
            }
        }
        lemma_insert_name_sorted(pre, n);
        lemma_insert_name_membership(pre, n);
        let rec = spec_insert_name(pre, n);
        let t = seq![s.first()] + rec;
        lemma_lex_leq_total(n, s.first());
        assert(lex_leq(s.first(), n));
        assert forall|i: int, j: int|
            0 <= i < j < t.len() implies lex_leq(#[trigger] t[i], #[trigger] t[j]) && t[i]
            != t[j] by {
            if i == 0 {
                assert(t[0] == s.first());
                assert(t[j] == rec[j - 1]);
                assert(rec.contains(rec[j - 1])) by {
                    assert(rec[j - 1] == rec[j - 1]);
                }
                if pre.contains(rec[j - 1]) {
                    let k = choose|k: int| 0 <= k < pre.len() && pre[k] == rec[j - 1];
                    assert(pre[k] == s[k + 1]);
                    assert(lex_leq(s[0], s[k + 1]) && s[0] != s[k + 1]);
                } else {
                    assert(rec[j - 1] == n);
                }
            } else {
                assert(t[i] == rec[i - 1] && t[j] == rec[j - 1]);
            }
        }
    }
}

/// Inserts a name into a sorted list, keeping it sorted; a name the list
/// already holds is not repeated.
pub open spec fn spec_insert_name(s: Seq<Seq<char>>, n: Seq<char>) -> Seq<Seq<char>>
    decreases s.len(),
{
    if s.len() == 0 {
        seq![n]
    } else if n == s.first() {
        s
    } else if lex_leq(n, s.first()) {
        seq![n] + s
    } else {
        seq![s.first()] + spec_insert_name(s.drop_first(), n)
    }
}

/// Insertion adds exactly the new name to the list's contents.
pub proof fn lemma_insert_name_membership(s: Seq<Seq<char>>, n: Seq<char>)
    ensures
        forall|m: Seq<char>|
            #[trigger] spec_insert_name(s, n).contains(m) <==> (s.contains(m) || m == n),
    decreases s.len(),
{
    if s.len() == 0 {
        assert forall|m: Seq<char>|
            #[trigger] spec_insert_name(s, n).contains(m) <==> (s.contains(m) || m == n) by {
            assert(seq![n][0] == n);
            if spec_insert_name(s, n).contains(m) {
                let j = choose|j: int|
                    0 <= j < spec_insert_name(s, n).len() && spec_insert_name(s, n)[j] == m;
                assert(m == n);
            }
        }
    } else if n == s.first() {
        assert forall|m: Seq<char>|
            #[trigger] spec_insert_name(s, n).contains(m) <==> (s.contains(m) || m == n) by {
            if m == n {
                assert(s[0] == m);
            }
        }
    } else if lex_leq(n, s.first()) {
        let t = seq![n] + s;
        assert forall|m: Seq<char>| #[trigger] t.contains(m) <==> (s.contains(m) || m == n) by {
            assert(t[0] == n);
            if t.contains(m) {
                let j = choose|j: int| 0 <= j < t.len() && t[j] == m;
                if j > 0 {
                    assert(s[j - 1] == m);
                }
            }
            if s.contains(m) {
                let j = choose|j: int| 0 <= j < s.len() && s[j] == m;
                assert(t[j + 1] == m);
            }
        }
    } else {
        lemma_insert_name_membership(s.drop_first(), n);
        let rec = spec_insert_name(s.drop_first(), n);
        let t = seq![s.first()] + rec;
        assert forall|m: Seq<char>| #[trigger] t.contains(m) <==> (s.contains(m) || m == n) by {
            assert(t[0] == s.first());
            if t.contains(m) {
                let j = choose|j: int| 0 <= j < t.len() && t[j] == m;
                if j > 0 {
                    assert(rec[j - 1] == m);
                    assert(rec.contains(m));
                    if s.drop_first().contains(m) {
                        let k = choose|k: int|
                            0 <= k < s.drop_first().len() && s.drop_first()[k] == m;
                        assert(s[k + 1] == m);
                    }
                } else {
                    assert(s[0] == m);
                }
            }
            if s.contains(m) {
                let j = choose|j: int| 0 <= j < s.len() && s[j] == m;
                if j > 0 {
                    assert(s.drop_first()[j - 1] == m);
                    assert(rec.contains(m));
                    let k = choose|k: int| 0 <= k < rec.len() && rec[k] == m;
                    assert(t[k + 1] == m);
                }
            }
            if m == n {
                assert(rec.contains(m));
                let k = choose|k: int| 0 <= k < rec.len() && rec[k] == m;
                assert(t[k + 1] == m);
            }
        }
    }
}

/// Inserts a name into a sorted list of names, in place.
#[verifier::loop_isolation(false)]
pub fn insert_name(names: &mut Vec<String>, name: String)
    ensures
        final(names).deep_view() == spec_insert_name(old(names).deep_view(), name@),
{
    let ghost s0 = names.deep_view();
    let ghost nv = name@;
    proof {
        assert(s0.skip(0) =~= s0);
    }
    let mut i: usize = 0;
    while i < names.len()
        invariant
            i <= names@.len(),
            names@ == old(names)@,
            spec_insert_name(s0, nv) == s0.subrange(0, i as int) + spec_insert_name(
                s0.skip(i as int),
                nv,
            ),
        decreases names@.len() - i,
    {
        let entry = &names[i];
        proof {
            assert(s0[i as int] == entry@);
            assert(s0.skip(i as int).first() == s0[i as int]);
            assert(s0.skip(i as int).drop_first() =~= s0.skip(i as int + 1));
        }
        if *entry == name {
            proof {
                assert(spec_insert_name(s0.skip(i as int), nv) == s0.skip(i as int));
                assert(s0.subrange(0, i as int) + s0.skip(i as int) =~= s0);
            }
            return ;
        }
        if lex_leq_str(name.as_str(), entry.as_str()) {
            let ghost before = names@;
            names.insert(i, name);
            proof {
                assert(spec_insert_name(s0.skip(i as int), nv) == seq![nv] + s0.skip(i as int));
                assert(names.deep_view() =~= s0.subrange(0, i as int) + (seq![nv] + s0.skip(
                    i as int,
                )));
            }
            return ;
        }
        proof {
            assert(s0.subrange(0, i as int) + (seq![s0[i as int]] + spec_insert_name(
                s0.skip(i as int + 1),
                nv,
            )) =~= s0.subrange(0, i as int + 1) + spec_insert_name(s0.skip(i as int + 1), nv));
        }
        i = i + 1;
    }
    proof {
        assert(s0.skip(s0.len() as int).len() == 0);
        assert(spec_insert_name(s0.skip(s0.len() as int), nv) =~= seq![nv]);
    }
    let ghost before = names@;
    names.push(name);
    proof {
        assert(names.deep_view() =~= s0.subrange(0, s0.len() as int) + seq![nv]);
        assert(s0.subrange(0, s0.len() as int) + seq![nv] =~= s0.subrange(0, s0.len() as int)
            + spec_insert_name(s0.skip(s0.len() as int), nv));
    }
}

/// Concatenation of two string slices.
pub fn concat2(a: &str, b: &str) -> (r: String)
    ensures
        r@ == a@ + b@,
{
    let mut r = a.to_owned();
    r.append(b);
    r
}

/// Concatenation of three string slices.
pub fn concat3(a: &str, b: &str, c: &str) -> (r: String)
    ensures
        r@ == a@ + b@ + c@,
{
    let mut r = a.to_owned();
    r.append(b);
    r.append(c);
    proof {
        assert(r@ =~= a@ + b@ + c@);
    }
    r
}

/// Concatenation of five string slices.
pub fn concat5(a: &str, b: &str, c: &str, d: &str, e: &str) -> (r: String)
    ensures
        r@ == a@ + b@ + c@ + d@ + e@,
{
    let mut r = a.to_owned();
    r.append(b);
    r.append(c);
    r.append(d);
    r.append(e);
    proof {
        assert(r@ =~= a@ + b@ + c@ + d@ + e@);
    }
    r
}

} // verus!
