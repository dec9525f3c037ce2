//! How a Windows program reads an argument back from its command line
//! (the rules documented for `CommandLineToArgvW`), and the proof that the
//! quoting in `args` is read back unchanged.

use vstd::prelude::*;
use crate::args::{backslashes, trailing_backslashes, escape_quoted, quoted, needs_quotes, quote_token};

verus! {

/// The reader's state: (argument so far, pending backslashes, inside quotes,
/// an unquoted space or tab was met, which would end the argument).
pub type ArgvState = (Seq<char>, nat, bool, bool);

/// One step of the reader. 2n backslashes before a double quote give n backslashes and
/// the quote toggles quoting; 2n+1 give n backslashes and a literal quote; backslashes
/// not before a quote are taken literally; an unquoted space or tab ends the argument.
pub open spec fn argv_step(st: ArgvState, c: char) -> ArgvState {
    if c == '\\' {
        (st.0, st.1 + 1, st.2, st.3)
    } else if c == '"' {
        if st.1 % 2 == 1 {
            (st.0 + backslashes(st.1 / 2) + seq!['"'], 0, st.2, st.3)
        } else {
            (st.0 + backslashes(st.1 / 2), 0, !st.2, st.3)
        }
    } else if (c == ' ' || c == '\t') && !st.2 {
        (st.0 + backslashes(st.1), 0, st.2, true)
    } else {
        (st.0 + backslashes(st.1) + seq![c], 0, st.2, st.3)
    }
}

/// The reader's state after all of `s`.
pub open spec fn argv_run(s: Seq<char>) -> ArgvState
    decreases s.len(),
{
    if s.len() == 0 {
        (Seq::empty(), 0, false, false)
    } else {
        argv_step(argv_run(s.drop_last()), s.last())
    }
}

/// The argument that a token is read as, and whether the token would be split
/// into more than one argument.
pub open spec fn argv_read(s: Seq<char>) -> (Seq<char>, bool) {
    let st = argv_run(s);
    (st.0 + backslashes(st.1), st.3)
}

proof fn lemma_run_push(s: Seq<char>, c: char)
    ensures
        argv_run(s.push(c)) == argv_step(argv_run(s), c),
{
    assert(s.push(c).drop_last() == s);
}

proof fn lemma_run_backslashes(s: Seq<char>, k: nat)
    ensures
        argv_run(s + backslashes(k)) == (argv_run(s).0, argv_run(s).1 + k, argv_run(s).2, argv_run(s).3),
    decreases k,
{
    if k == 0 {
        assert(s + backslashes(0) == s);
    } else {
        lemma_run_backslashes(s, (k - 1) as nat);
        assert(s + backslashes(k) == (s + backslashes((k - 1) as nat)).push('\\'));
        lemma_run_push(s + backslashes((k - 1) as nat), '\\');
    }
}

/// `s` without its trailing backslashes.
pub open spec fn strip_backslashes(s: Seq<char>) -> Seq<char> {
    s.take(s.len() - trailing_backslashes(s))
}

proof fn lemma_trailing_bound(s: Seq<char>)
    ensures
        trailing_backslashes(s) <= s.len(),
        strip_backslashes(s) + backslashes(trailing_backslashes(s)) == s,
    decreases s.len(),
{
    if s.len() > 0 && s.last() == '\\' {
        lemma_trailing_bound(s.drop_last());
        let q = s.drop_last();
        assert(strip_backslashes(s) == strip_backslashes(q));
        assert(backslashes(trailing_backslashes(s)) == backslashes(trailing_backslashes(q)).push('\\'));
        assert(s == q.push('\\'));
    } else {
        assert(s.take(s.len() as int) == s);
        assert(backslashes(0) == Seq::<char>::empty());
        assert(s + Seq::<char>::empty() == s);
    }
}

proof fn lemma_run_escaped(p: Seq<char>)
    ensures
        argv_run(seq!['"'] + escape_quoted(p)) == (strip_backslashes(p), trailing_backslashes(p), true, false),
    decreases p.len(),
{
    let open_q = seq!['"'];
    if p.len() == 0 {
        assert(open_q + escape_quoted(p) == Seq::<char>::empty().push('"'));
        lemma_run_push(Seq::<char>::empty(), '"');
        assert(backslashes(0) == Seq::<char>::empty());
        assert(strip_backslashes(p) == Seq::<char>::empty());
    } else {
        let q = p.drop_last();
        let c = p.last();
        lemma_run_escaped(q);
        lemma_trailing_bound(q);
        assert(p == q.push(c));
        if c == '"' {
            let tb = trailing_backslashes(q);
            let base = open_q + escape_quoted(q);
            assert(open_q + escape_quoted(p) == (base + backslashes(tb)).push('\\').push('"'));
            lemma_run_backslashes(base, tb);
            lemma_run_push(base + backslashes(tb), '\\');
            lemma_run_push((base + backslashes(tb)).push('\\'), '"');
            assert((2 * tb + 1) / 2 == tb) by (nonlinear_arith);
            assert((2 * tb + 1) % 2 == 1) by (nonlinear_arith);
            assert(tb + tb + 1 == 2 * tb + 1);
            assert(trailing_backslashes(p) == 0);
            assert(strip_backslashes(p) == p);
            assert(strip_backslashes(q) + backslashes(tb) + seq!['"'] == p);
        } else if c == '\\' {
            assert(open_q + escape_quoted(p) == (open_q + escape_quoted(q)).push('\\'));
            lemma_run_push(open_q + escape_quoted(q), '\\');
            assert(strip_backslashes(p) == strip_backslashes(q));
        } else {
            assert(open_q + escape_quoted(p) == (open_q + escape_quoted(q)).push(c));
            lemma_run_push(open_q + escape_quoted(q), c);
            assert(trailing_backslashes(p) == 0);
            assert(strip_backslashes(p) == p);
            assert(strip_backslashes(q) + backslashes(trailing_backslashes(q)) + seq![c] == p);
        }
    }
}

proof fn lemma_run_bare(p: Seq<char>)
    requires
        !p.contains(' '),
        !p.contains('\t'),
        !p.contains('"'),
    ensures
        argv_run(p) == (strip_backslashes(p), trailing_backslashes(p), false, false),
    decreases p.len(),
{
    if p.len() == 0 {
        assert(strip_backslashes(p) == Seq::<char>::empty());
    } else {
        let q = p.drop_last();
        let c = p.last();
        assert(p == q.push(c));
        assert(!q.contains(' ') && !q.contains('\t') && !q.contains('"')) by {
            if q.contains(' ') {
                let j = choose|j: int| 0 <= j < q.len() && q[j] == ' ';
                assert(p[j] == ' ');
            }
            if q.contains('\t') {
                let j = choose|j: int| 0 <= j < q.len() && q[j] == '\t';
                assert(p[j] == '\t');
            }
            if q.contains('"') {
                let j = choose|j: int| 0 <= j < q.len() && q[j] == '"';
                assert(p[j] == '"');
            }
        }
        assert(p[p.len() - 1] == c);
        lemma_run_bare(q);
        lemma_trailing_bound(q);
        lemma_run_push(q, c);
        if c == '\\' {
            assert(strip_backslashes(p) == strip_backslashes(q));
        } else {
            assert(trailing_backslashes(p) == 0);
            assert(strip_backslashes(p) == p);
            assert(strip_backslashes(q) + backslashes(trailing_backslashes(q)) + seq![c] == p);
        }
    }
}

/// The quoting of `quote_windows_arg` and `quote_windows_arg_forced` is undone by the
/// argv rules: every argument, quoted or bare, is read back as exactly itself and
/// stays one argument.
pub proof fn lemma_quote_token_reads_back(arg: Seq<char>, force: bool)
    ensures
        argv_read(quote_token(arg, force)) == (arg, false),
{
    lemma_trailing_bound(arg);
    if !force && !needs_quotes(arg) {
        lemma_run_bare(arg);
    } else {
        let tb = trailing_backslashes(arg);
        let base = seq!['"'] + escape_quoted(arg);
        lemma_run_escaped(arg);
        assert(quoted(arg) == (base + backslashes(tb)).push('"'));
        lemma_run_backslashes(base, tb);
        lemma_run_push(base + backslashes(tb), '"');
        assert((tb + tb) % 2 == 0) by (nonlinear_arith);
        assert((tb + tb) / 2 == tb) by (nonlinear_arith);
        assert(backslashes(0) == Seq::<char>::empty());
    }
}

/// What `quote_arg` promises: whatever `force` is, the token is read back by the argv
/// rules as exactly one argument equal to `arg`; and where quoting was needed (the bare
/// form differs from `arg`), forcing it gives the same token.
pub proof fn lemma_quote_arg_law(arg: Seq<char>, force: bool)
    ensures
        argv_read(quote_token(arg, force)) == (arg, false),
        quote_token(arg, false) != arg ==> quote_token(arg, true) == quote_token(arg, false),
{
    lemma_quote_token_reads_back(arg, force);
}

} // verus!
