use vstd::prelude::*;

use crate::store::KeyV;

verus! {

/// Strict lexicographic order on character sequences, by code point.
pub open spec fn seq_lt(a: Seq<char>, b: Seq<char>) -> bool
    decreases a.len(),
{
    if b.len() == 0 {
        false
    } else if a.len() == 0 {
        true
    } else if (a[0] as u32) < (b[0] as u32) {
        true
    } else if a[0] == b[0] {
        seq_lt(a.drop_first(), b.drop_first())
    } else {
        false
    }
}

/// Strict order on composite keys: host, then opponent, then game id.
pub open spec fn key_lt(a: KeyV, b: KeyV) -> bool {
    ||| seq_lt(a.0, b.0)
    ||| (a.0 == b.0 && seq_lt(a.1, b.1))
    ||| (a.0 == b.0 && a.1 == b.1 && a.2 < b.2)
}

pub proof fn lemma_seq_lt_irreflexive(a: Seq<char>)
    ensures
        !seq_lt(a, a),
    decreases a.len(),
{
    if a.len() > 0 {
        lemma_seq_lt_irreflexive(a.drop_first());
    }
}

/// Any two character sequences compare: below, above, or equal.
pub proof fn lemma_seq_lt_connex(a: Seq<char>, b: Seq<char>)
    ensures
        seq_lt(a, b) || seq_lt(b, a) || a == b,
    decreases a.len(),
{
    if a.len() == 0 && b.len() == 0 {
        assert(a =~= b);
    } else if a.len() > 0 && b.len() > 0 {
        if a[0] as u32 == b[0] as u32 {
            vstd::utf8::char_u32_cast(a[0], a[0] as u32);
            vstd::utf8::char_u32_cast(b[0], b[0] as u32);
        }
        if a[0] == b[0] {
            lemma_seq_lt_connex(a.drop_first(), b.drop_first());
            if !seq_lt(a, b) && !seq_lt(b, a) {
                assert(a.drop_first() == b.drop_first());
                assert forall|i: int| 0 <= i < a.len() implies a[i] == b[i] by {
                    if i > 0 {
                        assert(a[i] == a.drop_first()[i - 1]);
                        assert(b[i] == b.drop_first()[i - 1]);
                    }
                }
                assert(a =~= b);
            }
        }
    }
}

pub proof fn lemma_seq_lt_transitive(a: Seq<char>, b: Seq<char>, c: Seq<char>)
    requires
        seq_lt(a, b),
        seq_lt(b, c),
    ensures
        seq_lt(a, c),
    decreases a.len() + b.len() + c.len(),
{
    if a.len() > 0 && b.len() > 0 && c.len() > 0 {
        if a[0] == b[0] && b[0] == c[0] {
            lemma_seq_lt_transitive(a.drop_first(), b.drop_first(), c.drop_first());
        }
    }
}

/// Any two distinct keys compare.
pub proof fn lemma_key_lt_connex(a: KeyV, b: KeyV)
    requires
        a != b,
    ensures
        key_lt(a, b) || key_lt(b, a),
{
    lemma_seq_lt_connex(a.0, b.0);
    if !seq_lt(a.0, b.0) && !seq_lt(b.0, a.0) {
        lemma_seq_lt_connex(a.1, b.1);
    }
}

pub proof fn lemma_key_lt_transitive(a: KeyV, b: KeyV, c: KeyV)
    requires
        key_lt(a, b),
        key_lt(b, c),
    ensures
        key_lt(a, c),
{
    if seq_lt(a.0, b.0) && seq_lt(b.0, c.0) {
        lemma_seq_lt_transitive(a.0, b.0, c.0);
    }
    if seq_lt(a.1, b.1) && seq_lt(b.1, c.1) {
        lemma_seq_lt_transitive(a.1, b.1, c.1);
    }
}


pub proof fn lemma_key_lt_irreflexive(a: KeyV)
    ensures
        !key_lt(a, a),
{
    lemma_seq_lt_irreflexive(a.0);
    lemma_seq_lt_irreflexive(a.1);
}

/// Dropping an equal first character keeps the comparison.
proof fn lemma_seq_lt_step(a: Seq<char>, b: Seq<char>, i: int)
    requires
        0 <= i < a.len(),
        i < b.len(),
        a.skip(i)[0] == b.skip(i)[0],
    ensures
        seq_lt(a.skip(i), b.skip(i)) == seq_lt(a.skip(i + 1), b.skip(i + 1)),
{
    assert(a.skip(i).drop_first() =~= a.skip(i + 1));
    assert(b.skip(i).drop_first() =~= b.skip(i + 1));
}

/// Compares two identifiers in the key order.
pub fn str_lt(a: &str, b: &str) -> (r: bool)
    ensures
        r == seq_lt(a@, b@),
{
    let la = a.unicode_len();
    let lb = b.unicode_len();
    proof {
        assert(a@.skip(0) =~= a@);
        assert(b@.skip(0) =~= b@);
    }
    let mut i: usize = 0;
    while i < la && i < lb
        invariant
            i <= la,
            i <= lb,
            la == a@.len(),
            lb == b@.len(),
            seq_lt(a@, b@) == seq_lt(a@.skip(i as int), b@.skip(i as int)),
        decreases la - i,
    {
        let ca = a.get_char(i);
        let cb = b.get_char(i);
        proof {
            assert(a@.skip(i as int)[0] == a@[i as int]);
            assert(b@.skip(i as int)[0] == b@[i as int]);
        }
        if (ca as u32) < (cb as u32) {
            proof {
                assert(seq_lt(a@.skip(i as int), b@.skip(i as int)));
            }
            return true;
        }
        if (cb as u32) < (ca as u32) {
            proof {
                assert(!seq_lt(a@.skip(i as int), b@.skip(i as int)));
            }
            return false;
        }
        proof {
            vstd::utf8::char_u32_cast(ca, ca as u32);
            vstd::utf8::char_u32_cast(cb, cb as u32);
            assert(ca == cb);
            lemma_seq_lt_step(a@, b@, i as int);
        }
        i = i + 1;
    }
    proof {
        if i == la {
            assert(a@.skip(i as int).len() == 0);
        } else {
            assert(b@.skip(i as int).len() == 0);
        }
    }
    la < lb
}

/// Compares two composite keys in the store order.
pub fn key_less(h1: &String, o1: &String, id1: u64, h2: &String, o2: &String, id2: u64) -> (r:
    bool)
    ensures
        r == key_lt((h1@, o1@, id1), (h2@, o2@, id2)),
{
    if str_lt(h1.as_str(), h2.as_str()) {
        return true;
    }
    if !(*h1 == *h2) {
        proof {
            lemma_seq_lt_connex(h1@, h2@);
        }
        return false;
    }
    if str_lt(o1.as_str(), o2.as_str()) {
        return true;
    }
    if !(*o1 == *o2) {
        proof {
            lemma_seq_lt_connex(o1@, o2@);
        }
        return false;
    }
    proof {
        lemma_seq_lt_irreflexive(h1@);
        lemma_seq_lt_irreflexive(o1@);
    }
    id1 < id2
}

} // verus!
