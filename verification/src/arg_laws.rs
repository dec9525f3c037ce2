//! Laws of argument splitting: what the tokens are when no double quote is involved,
//! that joining then splitting gives the arguments back, and how Java arguments are
//! sorted.

use vstd::prelude::*;
use crate::text::free_of;
use crate::args::{
    backslashes, escape_quoted, java_run, java_split, java_step, joined_tokens, jvm_option,
    needs_quotes, quote_token, quoted, split_run, split_step, split_words, trailing_backslashes,
    JavaState, SplitState,
};

verus! {

/// The splitter's state after reading `t`, starting from `st`.
pub open spec fn split_from(st: SplitState, t: Seq<char>) -> SplitState
    decreases t.len(),
{
    if t.len() == 0 {
        st
    } else {
        split_step(split_from(st, t.drop_last()), t.last())
    }
}

proof fn lemma_split_from_concat(st: SplitState, t: Seq<char>, u: Seq<char>)
    ensures
        split_from(st, t + u) == split_from(split_from(st, t), u),
    decreases u.len(),
{
    if u.len() == 0 {
        assert(t + u =~= t);
    } else {
        lemma_split_from_concat(st, t, u.drop_last());
        assert((t + u).drop_last() =~= t + u.drop_last());
        assert((t + u).last() == u.last());
    }
}

proof fn lemma_split_run_from(s: Seq<char>)
    ensures
        split_run(s) == split_from((Seq::empty(), Seq::empty(), false, false), s),
    decreases s.len(),
{
    if s.len() > 0 {
        lemma_split_run_from(s.drop_last());
    }
}

/// Reading text without double quotes, and without spaces or tabs unless inside quotes,
/// only extends the current token.
proof fn lemma_split_content(st: SplitState, t: Seq<char>)
    requires
        free_of(t, '"'),
        st.2 || (free_of(t, ' ') && free_of(t, '\t')),
    ensures
        split_from(st, t) == (st.0, st.1 + t, st.2, st.3 || t.len() > 0),
    decreases t.len(),
{
    if t.len() == 0 {
        assert(st.1 + t =~= st.1);
    } else {
        let p = t.drop_last();
        assert(free_of(p, '"'));
        assert(st.2 || (free_of(p, ' ') && free_of(p, '\t')));
        lemma_split_content(st, p);
        assert(t.last() == t[t.len() - 1]);
        assert(st.1 + t =~= (st.1 + p).push(t.last()));
    }
}

/// `s` cut at every space and tab (as `str::split` does): the pieces between them, empty
/// ones included.
pub open spec fn blank_pieces(s: Seq<char>) -> Seq<Seq<char>>
    decreases s.len(),
{
    if s.len() == 0 {
        seq![Seq::<char>::empty()]
    } else if s.last() == ' ' || s.last() == '\t' {
        blank_pieces(s.drop_last()).push(Seq::empty())
    } else {
        let p = blank_pieces(s.drop_last());
        p.update(p.len() - 1, p.last().push(s.last()))
    }
}

/// The pieces that are not empty, in order.
pub open spec fn nonempty_pieces(ps: Seq<Seq<char>>) -> Seq<Seq<char>>
    decreases ps.len(),
{
    if ps.len() == 0 {
        ps
    } else if ps.last().len() > 0 {
        nonempty_pieces(ps.drop_last()).push(ps.last())
    } else {
        nonempty_pieces(ps.drop_last())
    }
}

proof fn lemma_blank_run(s: Seq<char>)
    requires
        free_of(s, '"'),
    ensures
        blank_pieces(s).len() >= 1,
        !split_run(s).2,
        split_run(s).1 == blank_pieces(s).last(),
        split_run(s).3 == (blank_pieces(s).last().len() > 0),
        split_run(s).0 == nonempty_pieces(blank_pieces(s).drop_last()),
    decreases s.len(),
{
    if s.len() > 0 {
        let p = s.drop_last();
        assert(free_of(p, '"'));
        lemma_blank_run(p);
        let ps = blank_pieces(p);
        assert(s.last() == s[s.len() - 1]);
        if s.last() == ' ' || s.last() == '\t' {
            assert(blank_pieces(s).drop_last() =~= ps);
            assert(ps =~= ps.drop_last().push(ps.last()));
            if split_run(p).3 {
                assert(split_run(s).1 =~= Seq::<char>::empty());
            }
        } else {
            let q = blank_pieces(s);
            assert(q.drop_last() =~= ps.drop_last());
        }
    }
}

/// No token of `split_args` holds a double quote (quotes only group), and without
/// double quotes in the input the tokens are the pieces between spaces and tabs, empty
/// ones dropped; backslashes, `&`, `|` and `%` are kept as they are.
pub proof fn lemma_split_words_without_quotes(s: Seq<char>)
    ensures
        forall|i: int| 0 <= i < split_words(s).len() ==> free_of(#[trigger] split_words(s)[i], '"'),
        free_of(s, '"') ==> split_words(s) == nonempty_pieces(blank_pieces(s)),
{
    crate::laws::lemma_split_tokens_hold_no_quote(s);
    assert forall|i: int| 0 <= i < split_words(s).len() implies free_of(
        #[trigger] split_words(s)[i],
        '"',
    ) by {
        let w = split_words(s)[i];
        assert forall|j: int| 0 <= j < w.len() implies w[j] != '"' by {
            assert(w.contains(w[j]));
        }
    }
    if free_of(s, '"') {
        lemma_blank_run(s);
        let ps = blank_pieces(s);
        assert(ps =~= ps.drop_last().push(ps.last()));
    }
}

/// An argument that comes back unchanged from joining and splitting: no double quote,
/// and no trailing backslash when it holds a space or tab (and so is quoted, which
/// doubles the backslashes before the closing quote).
pub open spec fn splits_back(a: Seq<char>) -> bool {
    &&& free_of(a, '"')
    &&& !(a.len() > 0 && a.last() == '\\' && !(free_of(a, ' ') && free_of(a, '\t')))
}

proof fn lemma_escape_plain(a: Seq<char>)
    requires
        free_of(a, '"'),
    ensures
        escape_quoted(a) == a,
    decreases a.len(),
{
    if a.len() > 0 {
        assert(free_of(a.drop_last(), '"'));
        lemma_escape_plain(a.drop_last());
        assert(a.last() == a[a.len() - 1]);
        assert(a =~= a.drop_last().push(a.last()));
    }
}

proof fn lemma_token_run(st: SplitState, a: Seq<char>)
    requires
        st.1.len() == 0,
        !st.2,
        splits_back(a),
    ensures
        split_from(st, quote_token(a, false)) == (st.0, a, false, true),
{
    let q = quote_token(a, false);
    if !needs_quotes(a) {
        assert(free_of(a, ' ')) by {
            assert forall|i: int| 0 <= i < a.len() implies a[i] != ' ' by {
                if a[i] == ' ' {
                    assert(a.contains(a[i]));
                }
            }
        }
        assert(free_of(a, '\t')) by {
            assert forall|i: int| 0 <= i < a.len() implies a[i] != '\t' by {
                if a[i] == '\t' {
                    assert(a.contains(a[i]));
                }
            }
        }
        lemma_split_content(st, a);
        assert(st.1 + a =~= a);
    } else {
        lemma_escape_plain(a);
        assert(trailing_backslashes(a) == 0) by {
            if a.len() > 0 && a.last() == '\\' {
                assert(!(free_of(a, ' ') && free_of(a, '\t')));
                if a.contains('"') {
                    let j = choose|j: int| 0 <= j < a.len() && a[j] == '"';
                    assert(a[j] != '"');
                }
            }
        }
        assert(backslashes(0) =~= Seq::<char>::empty());
        assert(q =~= seq!['"'] + a + seq!['"']);
        lemma_split_from_concat(st, seq!['"'] + a, seq!['"']);
        lemma_split_from_concat(st, seq!['"'], a);
        let st1 = split_from(st, seq!['"']);
        assert(seq!['"'].drop_last() =~= Seq::<char>::empty());
        assert(seq!['"'].last() == '"');
        assert(split_from(st, seq!['"'].drop_last()) == st);
        assert(st1 == split_step(st, '"'));
        assert(st1 == (st.0, st.1, true, true));
        lemma_split_content(st1, a);
        assert(st.1 + a =~= a);
        let st2 = split_from(st1, a);
        assert(split_from(st2, seq!['"'].drop_last()) == st2);
        assert(split_from(st2, seq!['"']) == split_step(st2, '"'));
        assert(split_from(st, seq!['"'] + a) == st2);
        assert(split_from(st, q) == split_from(st2, seq!['"']));
    }
}

proof fn lemma_joined_run(args: Seq<Seq<char>>)
    requires
        args.len() > 0,
        forall|i: int| 0 <= i < args.len() ==> splits_back(#[trigger] args[i]),
    ensures
        split_run(joined_tokens(args)) == (args.drop_last(), args.last(), false, true),
    decreases args.len(),
{
    let init: SplitState = (Seq::empty(), Seq::empty(), false, false);
    if args.len() == 1 {
        lemma_split_run_from(quote_token(args[0], false));
        lemma_token_run(init, args[0]);
        assert(args.drop_last() =~= Seq::<Seq<char>>::empty());
    } else {
        let p = args.drop_last();
        assert forall|i: int| 0 <= i < p.len() implies splits_back(#[trigger] p[i]) by {
            assert(p[i] == args[i]);
        }
        lemma_joined_run(p);
        let j = joined_tokens(p);
        let q = quote_token(args.last(), false);
        lemma_split_run_from(j + seq![' '] + q);
        lemma_split_run_from(j);
        lemma_split_from_concat(init, j + seq![' '], q);
        lemma_split_from_concat(init, j, seq![' ']);
        assert(seq![' '].drop_last() =~= Seq::<char>::empty());
        assert(seq![' '].last() == ' ');
        let st = split_from(init, j + seq![' ']);
        let st0 = split_from(init, j);
        assert(split_from(st0, seq![' '].drop_last()) == st0);
        assert(st == split_step(st0, ' '));
        assert(st == (p.drop_last().push(p.last()), Seq::<char>::empty(), false, false));
        assert(p.drop_last().push(p.last()) =~= p);
        assert(splits_back(args[args.len() - 1]));
        lemma_token_run(st, args.last());
    }
}

/// Joining arguments (`join_windows_args`) and splitting the result (`split_args`) gives
/// the arguments back, for arguments that `splits_back` admits.
pub proof fn lemma_join_then_split(args: Seq<Seq<char>>)
    requires
        forall|i: int| 0 <= i < args.len() ==> splits_back(#[trigger] args[i]),
    ensures
        split_words(joined_tokens(args)) == args,
{
    if args.len() > 0 {
        lemma_joined_run(args);
        assert(args.drop_last().push(args.last()) =~= args);
    }
}

/// The sorter's state after the tokens `ts`, starting from `st`.
pub open spec fn java_from(st: JavaState, ts: Seq<Seq<char>>) -> JavaState
    decreases ts.len(),
{
    if ts.len() == 0 {
        st
    } else {
        java_step(java_from(st, ts.drop_last()), ts.last())
    }
}

/// How many tokens at the front of `ts` are JVM options.
pub open spec fn leading_jvm(ts: Seq<Seq<char>>) -> nat
    decreases ts.len(),
{
    if ts.len() > 0 && jvm_option(ts[0]) {
        1 + leading_jvm(ts.skip(1))
    } else {
        0
    }
}

/// `ts` with every `-jar` removed together with the token after it, read left to right.
pub open spec fn drop_jar(ts: Seq<Seq<char>>) -> Seq<Seq<char>>
    decreases ts.len(),
{
    if ts.len() == 0 {
        ts
    } else if ts[0] == "-jar"@ {
        if ts.len() == 1 {
            Seq::empty()
        } else {
            drop_jar(ts.skip(2))
        }
    } else {
        seq![ts[0]] + drop_jar(ts.skip(1))
    }
}

proof fn lemma_java_from_concat(st: JavaState, a: Seq<Seq<char>>, b: Seq<Seq<char>>)
    ensures
        java_from(st, a + b) == java_from(java_from(st, a), b),
    decreases b.len(),
{
    if b.len() == 0 {
        assert(a + b =~= a);
    } else {
        lemma_java_from_concat(st, a, b.drop_last());
        assert((a + b).drop_last() =~= a + b.drop_last());
        assert((a + b).last() == b.last());
    }
}

proof fn lemma_java_from_front(st: JavaState, ts: Seq<Seq<char>>)
    requires
        ts.len() > 0,
    ensures
        java_from(st, ts) == java_from(java_step(st, ts[0]), ts.skip(1)),
{
    lemma_java_from_concat(st, seq![ts[0]], ts.skip(1));
    assert(seq![ts[0]] + ts.skip(1) =~= ts);
    assert(seq![ts[0]].drop_last() =~= Seq::<Seq<char>>::empty());
    assert(java_from(st, seq![ts[0]].drop_last()) == st);
    assert(seq![ts[0]].last() == ts[0]);
}

proof fn lemma_java_run_from(ts: Seq<Seq<char>>)
    ensures
        java_run(ts) == java_from((Seq::empty(), Seq::empty(), true, false), ts),
    decreases ts.len(),
{
    if ts.len() > 0 {
        lemma_java_run_from(ts.drop_last());
    }
}

proof fn lemma_java_rest(st: JavaState, ts: Seq<Seq<char>>)
    requires
        !st.2,
        !st.3,
    ensures
        java_from(st, ts).0 == st.0,
        java_from(st, ts).1 == st.1 + drop_jar(ts),
    decreases ts.len(),
{
    if ts.len() == 0 {
        assert(st.1 + drop_jar(ts) =~= st.1);
    } else {
        lemma_java_from_front(st, ts);
        let t = ts[0];
        if t == "-jar"@ {
            let st1 = java_step(st, t);
            if ts.len() == 1 {
                assert(ts.skip(1) =~= Seq::<Seq<char>>::empty());
                assert(java_from(st1, ts.skip(1)) == st1);
                assert(st.1 + Seq::<Seq<char>>::empty() =~= st.1);
            } else {
                lemma_java_from_front(st1, ts.skip(1));
                let st2 = java_step(st1, ts.skip(1)[0]);
                assert(ts.skip(1).skip(1) =~= ts.skip(2));
                lemma_java_rest(st2, ts.skip(2));
            }
        } else {
            let st1 = java_step(st, t);
            lemma_java_rest(st1, ts.skip(1));
            assert(st.1.push(t) + drop_jar(ts.skip(1)) =~= st.1 + (seq![t] + drop_jar(ts.skip(1))));
        }
    }
}

proof fn lemma_java_lead(jvm: Seq<Seq<char>>, ts: Seq<Seq<char>>)
    ensures
        leading_jvm(ts) <= ts.len(),
        java_from((jvm, Seq::empty(), true, false), ts).0 == jvm + ts.take(leading_jvm(ts) as int),
        java_from((jvm, Seq::empty(), true, false), ts).1 == drop_jar(ts.skip(leading_jvm(ts) as int)),
    decreases ts.len(),
{
    let st: JavaState = (jvm, Seq::empty(), true, false);
    if ts.len() == 0 {
        assert(jvm + ts.take(0) =~= jvm);
        assert(ts.skip(0) =~= ts);
    } else if jvm_option(ts[0]) {
        lemma_java_from_front(st, ts);
        lemma_java_lead(jvm.push(ts[0]), ts.skip(1));
        let k = leading_jvm(ts.skip(1)) as int;
        assert(jvm.push(ts[0]) + ts.skip(1).take(k) =~= jvm + ts.take(k + 1));
        assert(ts.skip(1).skip(k) =~= ts.skip(k + 1));
    } else {
        let st0: JavaState = (jvm, Seq::empty(), false, false);
        lemma_java_from_front(st, ts);
        lemma_java_from_front(st0, ts);
        assert(java_step(st, ts[0]) == java_step(st0, ts[0]));
        lemma_java_rest(st0, ts);
        assert(jvm + ts.take(0) =~= jvm);
        assert(ts.skip(0) =~= ts);
        assert(Seq::<Seq<char>>::empty() + drop_jar(ts) =~= drop_jar(ts));
    }
}

proof fn lemma_leading_jvm_shape(ts: Seq<Seq<char>>)
    ensures
        leading_jvm(ts) <= ts.len(),
        forall|i: int| 0 <= i < leading_jvm(ts) ==> jvm_option(#[trigger] ts[i]),
        leading_jvm(ts) == ts.len() || !jvm_option(ts[leading_jvm(ts) as int]),
    decreases ts.len(),
{
    if ts.len() > 0 && jvm_option(ts[0]) {
        lemma_leading_jvm_shape(ts.skip(1));
        assert forall|i: int| 0 <= i < leading_jvm(ts) implies jvm_option(#[trigger] ts[i]) by {
            if i > 0 {
                assert(ts[i] == ts.skip(1)[i - 1]);
            }
        }
        let k = leading_jvm(ts.skip(1)) as int;
        if k < ts.skip(1).len() {
            assert(ts[k + 1] == ts.skip(1)[k]);
        }
    }
}

/// How `split_java_args` sorts a Java tool's tokens: the JVM options at the front (the
/// first `leading_jvm` tokens, all JVM options, up to the first token that is not one)
/// go first; the other tokens follow in order, with every `-jar` and the token after it
/// removed.
pub proof fn lemma_java_split_law(s: Seq<char>)
    ensures
        ({
            let ts = split_words(s);
            let k = leading_jvm(ts) as int;
            &&& k <= ts.len()
            &&& forall|i: int| 0 <= i < k ==> jvm_option(#[trigger] ts[i])
            &&& (k == ts.len() || !jvm_option(ts[k]))
            &&& java_split(s).0 == ts.take(k)
            &&& java_split(s).1 == drop_jar(ts.skip(k))
        }),
{
    let ts = split_words(s);
    lemma_leading_jvm_shape(ts);
    lemma_java_run_from(ts);
    lemma_java_lead(Seq::empty(), ts);
    assert(Seq::<Seq<char>>::empty() + ts.take(leading_jvm(ts) as int) =~= ts.take(
        leading_jvm(ts) as int,
    ));
}

} // verus!
