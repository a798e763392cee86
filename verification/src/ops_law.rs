//! A selection of phases that is accepted is one that the quorum engine runs.
use vstd::prelude::*;

use crate::engine::{lower_parts, ops_given, quorum_op, quorum_op_names, unknown_op};
use crate::text::{is_space, lower, replaced, split, trim, trim_end, trim_start};
use crate::unified_run::{known_op, ops_known};

verus! {

/// The parts of a list between commas, without white space at their ends.
pub open spec fn listed(s: Seq<char>) -> Seq<Seq<char>> {
    Seq::new(split(s, ',').len(), |i: int| trim(split(s, ',')[i]))
}

proof fn lemma_split_some(s: Seq<char>)
    ensures
        split(s, ',').len() >= 1,
    decreases s.len(),
{
    if s.len() > 0 {
        lemma_split_some(s.drop_last());
    }
}

proof fn lemma_trim_start_push(x: Seq<char>, c: char)
    requires
        is_space(c),
    ensures
        trim_start(x).len() == 0 ==> trim_start(x.push(c)).len() == 0,
        trim_start(x).len() > 0 ==> trim_start(x.push(c)) == trim_start(x).push(c),
    decreases x.len(),
{
    let y = x.push(c);
    if x.len() == 0 {
        assert(trim_start(y.drop_first()).len() == 0);
    } else if is_space(x[0]) {
        assert(y.drop_first() =~= x.drop_first().push(c));
        lemma_trim_start_push(x.drop_first(), c);
    }
}

proof fn lemma_trim_push(x: Seq<char>, c: char)
    requires
        is_space(c),
    ensures
        trim(x.push(c)) == trim(x),
{
    lemma_trim_start_push(x, c);
    let a = trim_start(x);
    if a.len() == 0 {
        assert(trim_start(x.push(c)) =~= a);
    } else {
        assert(a.push(c).drop_last() =~= a);
    }
}

proof fn lemma_listed_end(s: Seq<char>)
    ensures
        listed(trim_end(s)) == listed(s),
    decreases s.len(),
{
    if s.len() > 0 && is_space(s.last()) {
        let t = s.drop_last();
        let (a, b) = (split(t, ','), split(s, ','));
        lemma_split_some(t);
        lemma_trim_push(a.last(), s.last());
        assert(b.len() == a.len());
        assert forall|i: int| 0 <= i < a.len() implies trim(#[trigger] b[i]) == trim(a[i]) by {
        }
        assert(listed(t) =~= listed(s));
        lemma_listed_end(t);
    }
}

proof fn lemma_split_first(s: Seq<char>)
    requires
        s.len() > 0,
        s[0] != ',',
    ensures
        split(s, ',') == split(s.drop_first(), ',').update(
            0,
            seq![s[0]] + split(s.drop_first(), ',')[0],
        ),
    decreases s.len(),
{
    let t = s.drop_first();
    let c = seq![s[0]];
    lemma_split_some(t);
    if s.len() == 1 {
        assert(s.drop_last() =~= Seq::empty());
        let e = Seq::<char>::empty();
        assert(split(s.drop_last(), ',') =~= seq![e]);
        assert(t =~= e);
        assert(e.push(s.last()) =~= c + e);
        assert(split(s, ',') =~= split(t, ',').update(0, c + split(t, ',')[0]));
    } else {
        let d = s.drop_last();
        assert(d.drop_first() =~= t.drop_last());
        lemma_split_first(d);
        let front = split(t.drop_last(), ',');
        lemma_split_some(t.drop_last());
        assert(split(d, ',') == front.update(0, c + front[0]));
        assert(t.last() == s.last());
        if s.last() == ',' {
            assert(split(s, ',') =~= split(t, ',').update(0, c + split(t, ',')[0]));
        } else if front.len() == 1 {
            assert((c + front[0]).push(s.last()) =~= c + front[0].push(s.last()));
            assert(split(s, ',') =~= split(t, ',').update(0, c + split(t, ',')[0]));
        } else {
            assert(split(s, ',') =~= split(t, ',').update(0, c + split(t, ',')[0]));
        }
    }
}

proof fn lemma_listed_start(s: Seq<char>)
    ensures
        listed(trim_start(s)) == listed(s),
    decreases s.len(),
{
    if s.len() > 0 && is_space(s[0]) {
        let t = s.drop_first();
        let (a, b) = (split(t, ','), split(s, ','));
        lemma_split_some(t);
        lemma_split_first(s);
        assert((seq![s[0]] + a[0]).drop_first() =~= a[0]);
        assert forall|i: int| 0 <= i < a.len() implies trim(#[trigger] b[i]) == trim(a[i]) by {
        }
        assert(listed(t) =~= listed(s));
        lemma_listed_start(t);
    }
}

proof fn lemma_known_op(x: Seq<char>)
    requires
        known_op(x),
    ensures
        x.len() > 0,
        replaced(lower(x), '-', '_') == x,
        quorum_op(x),
        lower(x)[0] != 'a',
{
    reveal_strlit("reg");
    reveal_strlit("secupd");
    reveal_strlit("pwdupd");
    assert(replaced(lower(x), '-', '_') =~= x);
}

proof fn lemma_all_known(v: Seq<Seq<char>>, i: int)
    requires
        0 <= i <= v.len(),
        forall|k: int| 0 <= k < v.len() ==> quorum_op(#[trigger] v[k]),
    ensures
        unknown_op(v, i) is None,
    decreases v.len() - i,
{
    if i < v.len() {
        lemma_all_known(v, i + 1);
    }
}

/// A name of lower-case letters.
spec fn plain_name(x: Seq<char>) -> bool {
    x.len() > 0 && replaced(lower(x), '-', '_') == x
}

proof fn lemma_lower_parts(s: Seq<char>, k: int)
    requires
        0 <= k <= listed(s).len(),
        forall|i: int| 0 <= i < listed(s).len() ==> plain_name(#[trigger] listed(s)[i]),
    ensures
        lower_parts(split(s, ','), true, k) == listed(s).take(k),
    decreases k,
{
    if k > 0 {
        lemma_lower_parts(s, k - 1);
        assert(plain_name(listed(s)[k - 1]));
        assert(listed(s).take(k) =~= listed(s).take(k - 1).push(listed(s)[k - 1]));
    } else {
        assert(listed(s).take(0) =~= Seq::empty());
    }
}

proof fn lemma_one_part(s: Seq<char>)
    requires
        forall|i: int| 0 <= i < s.len() ==> s[i] != ',',
    ensures
        split(s, ',') == seq![s],
    decreases s.len(),
{
    if s.len() > 0 {
        lemma_one_part(s.drop_last());
        assert(s.drop_last().push(s.last()) =~= s);
        assert(split(s, ',') =~= seq![s]);
    } else {
        assert(s =~= Seq::empty());
    }
}

/// A text that is the word for all phases but for the case of its letters has no blanks and no
/// commas.
proof fn lemma_bare_word(s: Seq<char>)
    requires
        lower(s) == "all"@,
    ensures
        listed(s) == seq![s],
        trim(s) == s,
{
    reveal_strlit("all");
    let low = lower(s);
    assert(low.len() == "all"@.len());
    assert(low[0] == 'a' && low[1] == 'l' && low[2] == 'l');
    lemma_one_part(s);
    assert(!is_space(s[0]) && !is_space(s[2]));
    assert(trim(s) == s);
    assert(listed(s) =~= seq![s]);
}

/// A selection that is accepted selects, as it is handed on, all phases where it is the word
/// for that, and else exactly the listed ones, and the quorum engine knows every one. The one
/// exception is that word with blanks around it: it is accepted and handed on, and the
/// engine does not know it.
pub proof fn accepted_selection_runs(ops: Seq<char>)
    requires
        ops_known(ops),
    ensures
        ops_given(ops) == if ops == "all"@ {
            quorum_op_names()
        } else {
            listed(ops)
        },
        unknown_op(ops_given(ops), 0) == if trim(ops) == "all"@ && ops != "all"@ {
            Some("all"@)
        } else {
            None
        },
{
    let given = ops_given(ops);
    reveal_strlit("all");
    reveal_strlit("reg");
    reveal_strlit("secupd");
    reveal_strlit("pwdupd");
    assert(lower("all"@) =~= "all"@);
    assert(replaced("all"@, '-', '_') =~= "all"@);
    if ops == "all"@ {
        lemma_all_known(given, 0);
    } else if trim(ops) == "all"@ {
        lemma_listed_start(ops);
        lemma_listed_end(trim_start(ops));
        lemma_bare_word("all"@);
        assert(listed(ops) == seq!["all"@]);
        if lower(ops) == "all"@ {
            lemma_bare_word(ops);
        }
        assert forall|i: int| 0 <= i < listed(ops).len() implies plain_name(
            #[trigger] listed(ops)[i],
        ) by {
            assert(listed(ops)[i] == "all"@);
        }
        lemma_lower_parts(ops, 1);
        assert(listed(ops).take(1) =~= listed(ops));
        assert(given[0] == "all"@);
        assert("all"@[0] != "reg"@[0]);
        assert("all"@[0] != "secupd"@[0]);
        assert("all"@[0] != "pwdupd"@[0]);
    } else {
        assert forall|i: int| 0 <= i < listed(ops).len() implies known_op(
            #[trigger] listed(ops)[i],
        ) && plain_name(listed(ops)[i]) by {
            assert(listed(ops)[i] == trim(split(ops, ',')[i]));
            lemma_known_op(listed(ops)[i]);
        }
        if lower(ops) == "all"@ {
            lemma_bare_word(ops);
            assert(known_op(listed(ops)[0]));
            assert(lower(ops)[0] == 'a');
            lemma_known_op(ops);
        }
        lemma_lower_parts(ops, listed(ops).len() as int);
        assert(listed(ops).take(listed(ops).len() as int) =~= listed(ops));
        assert forall|k: int| 0 <= k < given.len() implies quorum_op(#[trigger] given[k]) by {
            assert(known_op(listed(ops)[k]));
        }
        lemma_all_known(given, 0);
    }
}

} // verus!
