//! The grammar's laws: which commands are expressible, and that rendering
//! and parsing are inverse to one another on them.
//!
//! `lemma_parse_action_only` covers the one-word command; the two round-trip
//! lemmas at the bottom state that a well-formed command survives rendering
//! and re-parsing unchanged, and that every parsed command is well formed —
//! so nothing the parser hands out is lost, apart from the spacing of the
//! separator tokens themselves.

use vstd::prelude::*;

use crate::command::{
    close_at, find_close, ident_end, opens_string, quote_seq, spec_arg_section, spec_arg_tail,
    spec_citizen, spec_parse, spec_render, spec_render_args, spec_render_citizen, CitizenView,
    CommandView, ParseError,
};
use crate::scan::{
    is_ident_char, is_space_char, is_word_char, lemma_space_end, lemma_space_end_of_run,
    lemma_word_end, lemma_word_end_of_run, space_end, word_end,
};

verus! {

/// An action name the grammar can produce: one non-empty word.
pub open spec fn valid_action(a: Seq<char>) -> bool {
    a.len() > 0 && forall|i: int| 0 <= i < a.len() ==> is_word_char(a[i])
}

/// An identifier text the grammar can produce: word characters and inner
/// spaces, beginning and ending on a word character, and not beginning with
/// the delimiter token followed by a space (such a text would re-parse as a
/// string literal).
pub open spec fn valid_ident_text(t: Seq<char>) -> bool {
    &&& t.len() > 0
    &&& is_word_char(t[0])
    &&& is_word_char(t[t.len() - 1])
    &&& forall|i: int| 0 <= i < t.len() ==> is_ident_char(t[i])
    &&& !opens_string(t, 0)
}

/// A string content the grammar can produce: non-empty, not beginning with a
/// space (the opening space run would swallow it), and nowhere containing a
/// closing delimiter (which would end the literal early).
pub open spec fn valid_str_text(t: Seq<char>) -> bool {
    &&& t.len() > 0
    &&& !is_space_char(t[0])
    &&& forall|i: int| !close_at(t, i)
}

/// A value the grammar can produce.
pub open spec fn valid_citizen(c: CitizenView) -> bool {
    match c {
        CitizenView::Identifier(t) => valid_ident_text(t),
        CitizenView::Str(t) => valid_str_text(t),
    }
}

/// A command the grammar can produce.
pub open spec fn well_formed(c: CommandView) -> bool {
    &&& valid_action(c.action)
    &&& forall|i: int| 0 <= i < c.arguments.len() ==> valid_citizen(c.arguments[i])
}

/// The characters the grammar singles out are pairwise distinct in class:
/// neither the space nor the separator is a word character, and the
/// delimiter token consists of neither.
proof fn lemma_char_classes()
    ensures
        !is_word_char(' '),
        !is_word_char('&'),
        forall|k: int| 0 <= k < 5 ==> quote_seq()[k] != ' ' && quote_seq()[k] != '&',
{
    assert(quote_seq()[0] == 'q' && quote_seq()[1] == 'u' && quote_seq()[2] == 'o' && quote_seq()[3]
        == 't' && quote_seq()[4] == 'e');
}

/// A closing delimiter at `m`, with none between `i` and `m`, is what
/// `find_close` finds.
proof fn lemma_find_close_exact(s: Seq<char>, i: int, m: int)
    requires
        0 <= i <= m,
        close_at(s, m),
        forall|k: int| i <= k < m ==> !close_at(s, k),
    ensures
        find_close(s, i) == Some(m),
    decreases m - i,
{
    if i < m {
        lemma_find_close_exact(s, i + 1, m);
    }
}

/// A stretch of identifier characters that begins and ends on a word
/// character, and is followed by a character of neither class (or the end),
/// is exactly what the identifier rule consumes.
proof fn lemma_ident_end_of_text(s: Seq<char>, i: int, e: int)
    requires
        0 <= i < e <= s.len(),
        forall|k: int| i <= k < e ==> is_ident_char(s[k]),
        is_word_char(s[i]),
        is_word_char(s[e - 1]),
        e == s.len() || !is_ident_char(s[e]),
    ensures
        ident_end(s, i) == e,
    decreases e - i,
{
    lemma_char_classes();
    let w = word_end(s, i);
    lemma_word_end(s, i);
    assert(w <= e) by {
        if w > e {
            assert(is_word_char(s[e]));
        }
    }
    let j = space_end(s, w);
    lemma_space_end(s, w);
    if w == e {
        assert(j == e) by {
            if e < s.len() {
                assert(space_end(s, e) == e);
            }
        }
    } else {
        assert(is_space_char(s[w]));
        assert(j <= e) by {
            if j > e {
                assert(is_space_char(s[e]));
            }
        }
        assert(j < e) by {
            if j == e {
                assert(is_space_char(s[e - 1]));
            }
        }
        assert(is_word_char(s[j]));
        lemma_ident_end_of_text(s, j, e);
    }
}

/// A rendered value standing at `a`, with the separator or the end right
/// after it, re-parses to the value itself.
#[verifier::rlimit(50)]
proof fn lemma_citizen_round_trip(s: Seq<char>, a: int, c: CitizenView)
    requires
        valid_citizen(c),
        0 <= a,
        a + spec_render_citizen(c).len() <= s.len(),
        s.subrange(a, a + spec_render_citizen(c).len()) == spec_render_citizen(c),
        a + spec_render_citizen(c).len() == s.len() || s[a + spec_render_citizen(c).len()] == '&',
    ensures
        spec_citizen(s, a) == Some((c, a + spec_render_citizen(c).len())),
{
    lemma_char_classes();
    let r = spec_render_citizen(c);
    let b = a + r.len();
    assert forall|k: int| 0 <= k < r.len() implies s[a + k] == r[k] by {
        assert(s.subrange(a, b)[k] == s[a + k]);
    }
    assert forall|k: int| a <= k < b implies s[k] == r[k - a] by {
        assert(s[a + (k - a)] == r[k - a]);
    }
    match c {
        CitizenView::Identifier(t) => {
            assert(!opens_string(s, a)) by {
                if opens_string(s, a) {
                    if t.len() >= 6 {
                        assert(t.subrange(0, 5) =~= s.subrange(a, a + 5));
                        assert(t[5] == s[a + 5]);
                        assert(opens_string(t, 0));
                    } else if t.len() == 5 {
                        assert(s[b] == '&');
                    } else {
                        assert(s.subrange(a, a + 5)[b - a] == s[b]);
                        assert(s[b] == '&');
                    }
                }
            }
            assert(is_word_char(s[a]));
            lemma_ident_end_of_text(s, a, b);
            assert(s.subrange(a, b) == t);
        },
        CitizenView::Str(t) => {
            assert(r.len() == t.len() + 12);
            assert(forall|k: int| 0 <= k < 5 ==> r[k] == quote_seq()[k]);
            assert(r[5] == ' ');
            assert(forall|o: int| 0 <= o < t.len() ==> r[6 + o] == t[o]);
            assert(r[6 + t.len() as int] == ' ');
            assert(forall|k: int| 0 <= k < 5 ==> r[7 + t.len() as int + k] == quote_seq()[k]);
            let m = a + 6 + t.len();
            assert(opens_string(s, a)) by {
                assert(s.subrange(a, a + 5) =~= quote_seq());
                assert(s[a + 5] == ' ');
            }
            assert(space_end(s, a + 5) == a + 6) by {
                assert(s[a + 6] == t[0]);
                lemma_space_end_of_run(s, a + 5, a + 6);
            }
            assert(close_at(s, m)) by {
                assert(s[m] == ' ');
                assert(s.subrange(m + 1, m + 6) =~= quote_seq());
            }
            assert forall|k: int| a + 6 <= k < m implies !close_at(s, k) by {
                if close_at(s, k) {
                    assert(s.subrange(k + 1, k + 6) == quote_seq());
                    if k + 6 <= m {
                        let o = k - (a + 6);
                        assert(t[o] == s[k]);
                        assert(t.subrange(o + 1, o + 6) =~= s.subrange(k + 1, k + 6));
                        assert(close_at(t, o));
                    } else {
                        assert(s.subrange(k + 1, k + 6)[m - k - 1] == s[m]);
                        assert(quote_seq()[m - k - 1] == ' ');
                    }
                }
            }
            lemma_find_close_exact(s, a + 6, m);
            assert(s.subrange(a + 6, m) =~= t);
        },
    }
}

/// The rendering of a valid value begins with a non-space character.
proof fn lemma_render_citizen_head(c: CitizenView)
    requires
        valid_citizen(c),
    ensures
        spec_render_citizen(c).len() >= 1,
        !is_space_char(spec_render_citizen(c)[0]),
{
    lemma_char_classes();
    match c {
        CitizenView::Identifier(t) => {
            assert(spec_render_citizen(c)[0] == t[0]);
            if t[0] == ' ' {
                assert(is_word_char(' '));
            }
        },
        CitizenView::Str(t) => {
            assert(spec_render_citizen(c)[0] == 'q');
        },
    }
}

/// A rendered argument list standing at `a` and reaching the end of the text
/// re-parses to its first value, with the remaining values as the tail.
#[verifier::rlimit(50)]
proof fn lemma_args_round_trip(s: Seq<char>, a: int, args: Seq<CitizenView>)
    requires
        args.len() >= 1,
        forall|i: int| 0 <= i < args.len() ==> valid_citizen(args[i]),
        0 <= a,
        a + spec_render_args(args).len() == s.len(),
        s.subrange(a, s.len() as int) == spec_render_args(args),
    ensures
        spec_citizen(s, a) == Some((args[0], a + spec_render_citizen(args[0]).len())),
        spec_arg_tail(s, a + spec_render_citizen(args[0]).len()) == (
            args.drop_first(),
            s.len() as int,
        ),
    decreases args.len(),
{
    let r = spec_render_args(args);
    let r0 = spec_render_citizen(args[0]);
    let b = a + r0.len();
    assert forall|k: int| a <= k < s.len() implies s[k] == r[k - a] by {
        assert(s.subrange(a, s.len() as int)[k - a] == s[k]);
    }
    if args.len() == 1 {
        assert(s.subrange(a, b) =~= r0);
        lemma_citizen_round_trip(s, a, args[0]);
        assert(spec_arg_tail(s, b) == (Seq::<CitizenView>::empty(), b));
        assert(args.drop_first() =~= Seq::<CitizenView>::empty());
    } else {
        let d = args.drop_first();
        let rest = spec_render_args(d);
        assert(r == r0 + seq!['&'] + rest);
        assert(forall|k: int| 0 <= k < r0.len() ==> r[k] == r0[k]);
        assert(r[r0.len() as int] == '&');
        assert(forall|k: int| 0 <= k < rest.len() ==> r[r0.len() + 1 + k] == rest[k]);
        assert(s.subrange(a, b) =~= r0);
        assert(s[b] == '&');
        lemma_citizen_round_trip(s, a, args[0]);
        assert(space_end(s, b) == b) by {
            lemma_space_end_of_run(s, b, b);
        }
        lemma_render_citizen_head(d[0]);
        assert(rest[0] == spec_render_citizen(d[0])[0]);
        assert(s[b + 1] == rest[0]);
        assert(space_end(s, b + 1) == b + 1) by {
            lemma_space_end_of_run(s, b + 1, b + 1);
        }
        assert(s.subrange(b + 1, s.len() as int) =~= rest);
        lemma_args_round_trip(s, b + 1, d);
        let m1 = b + 1 + spec_render_citizen(d[0]).len();
        crate::command::lemma_spec_citizen_advances(s, b + 1);
        assert(spec_arg_tail(s, b).0 =~= seq![d[0]] + d.drop_first());
        assert(seq![d[0]] + d.drop_first() =~= d);
        assert(spec_arg_tail(s, b).1 == s.len());
    }
}

/// Law: a single non-empty word is a complete command — that word as the
/// action, with no arguments.
pub proof fn lemma_parse_action_only(s: Seq<char>)
    requires
        valid_action(s),
    ensures
        spec_parse(s) == Ok::<CommandView, ParseError>(
            CommandView { action: s, arguments: Seq::empty() },
        ),
{
    lemma_word_end_of_run(s, 0, s.len() as int);
    assert(s.subrange(0, s.len() as int) =~= s);
}

/// Law: rendering a well-formed command and parsing the rendering returns
/// the command unchanged.
#[verifier::rlimit(50)]
pub proof fn lemma_render_round_trip(c: CommandView)
    requires
        well_formed(c),
    ensures
        spec_parse(spec_render(c)) == Ok::<CommandView, ParseError>(c),
{
    let s = spec_render(c);
    let al = c.action.len() as int;
    if c.arguments.len() == 0 {
        lemma_parse_action_only(c.action);
        assert(c.arguments =~= Seq::<CitizenView>::empty());
    } else {
        lemma_char_classes();
        let ra = spec_render_args(c.arguments);
        assert forall|k: int| 0 <= k < s.len() implies s[k] == (c.action + seq![' '] + ra)[k] by {}
        assert(forall|k: int| 0 <= k < al ==> s[k] == c.action[k]);
        assert(s[al] == ' ');
        assert(forall|k: int| 0 <= k < ra.len() ==> s[al + 1 + k] == ra[k]);
        assert(word_end(s, 0) == al) by {
            lemma_word_end_of_run(s, 0, al);
        }
        assert(s.subrange(0, al) =~= c.action);
        lemma_render_citizen_head(c.arguments[0]);
        assert(ra[0] == spec_render_citizen(c.arguments[0])[0]);
        assert(s[al + 1] == ra[0]);
        assert(space_end(s, al) == al + 1) by {
            lemma_space_end_of_run(s, al, al + 1);
        }
        assert(s.subrange(al + 1, s.len() as int) =~= ra);
        lemma_args_round_trip(s, al + 1, c.arguments);
        let c0 = c.arguments[0];
        let m0 = al + 1 + spec_render_citizen(c0).len();
        assert(spec_arg_section(s, al) == Some(
            (seq![c0] + c.arguments.drop_first(), s.len() as int),
        ));
        assert(seq![c0] + c.arguments.drop_first() =~= c.arguments);
    }
}

/// Whatever value the value grammar reads is one the grammar can also
/// render: the parser only produces valid citizens.
#[verifier::rlimit(50)]
proof fn lemma_spec_citizen_valid(s: Seq<char>, i: int)
    requires
        0 <= i <= s.len(),
    ensures
        match spec_citizen(s, i) {
            Some((c, m)) => valid_citizen(c),
            None => true,
        },
{
    lemma_char_classes();
    if opens_string(s, i) {
        let k = space_end(s, i + 5);
        lemma_space_end(s, i + 5);
        match find_close(s, k) {
            Some(m) => {
                crate::command::lemma_find_close(s, k);
                let t = s.subrange(k, m);
                assert(m > k) by {
                    if m == k {
                        assert(is_space_char(s[m]));
                    }
                }
                assert(!is_space_char(t[0]));
                assert forall|o: int| !close_at(t, o) by {
                    if close_at(t, o) {
                        assert(t[o] == s[k + o]);
                        assert(s.subrange(k + o + 1, k + o + 6) =~= t.subrange(o + 1, o + 6));
                        assert(close_at(s, k + o));
                    }
                }
            },
            None => {},
        }
    } else if 0 <= i < s.len() && is_word_char(s[i]) {
        let p = ident_end(s, i);
        crate::command::lemma_ident_end(s, i);
        let t = s.subrange(i, p);
        assert(!opens_string(t, 0)) by {
            if opens_string(t, 0) {
                assert(t.subrange(0, 5) =~= s.subrange(i, i + 5));
                assert(s[i + 5] == t[5]);
                assert(opens_string(s, i));
            }
        }
    }
}

/// Whatever the argument-list grammar reads past the first value is a
/// sequence of valid citizens, and the position only moves forward.
proof fn lemma_arg_tail_valid(s: Seq<char>, i: int)
    requires
        0 <= i <= s.len(),
    ensures
        forall|j: int|
            0 <= j < spec_arg_tail(s, i).0.len() ==> valid_citizen(spec_arg_tail(s, i).0[j]),
        i <= spec_arg_tail(s, i).1 <= s.len(),
    decreases s.len() - i,
{
    let j0 = space_end(s, i);
    lemma_space_end(s, i);
    if j0 < s.len() && s[j0] == '&' {
        let k = space_end(s, j0 + 1);
        lemma_space_end(s, j0 + 1);
        lemma_spec_citizen_valid(s, k);
        crate::command::lemma_spec_citizen_advances(s, k);
        match spec_citizen(s, k) {
            Some((c, m)) => {
                if i < m <= s.len() {
                    lemma_arg_tail_valid(s, m);
                }
            },
            None => {},
        }
    }
}

/// Law: every command the parser accepts is well formed, and parsing the
/// rendering of that command returns it unchanged — the command keeps all
/// the information of the consumed line, apart from the spacing of the
/// separator tokens themselves.
pub proof fn lemma_parse_reconstructs(s: Seq<char>, c: CommandView)
    requires
        spec_parse(s) == Ok::<CommandView, ParseError>(c),
    ensures
        well_formed(c),
        spec_parse(spec_render(c)) == Ok::<CommandView, ParseError>(c),
{
    let w = word_end(s, 0);
    lemma_word_end(s, 0);
    assert(valid_action(c.action)) by {
        assert(c.action == s.subrange(0, w));
        assert forall|k: int| 0 <= k < c.action.len() implies is_word_char(c.action[k]) by {
            assert(c.action[k] == s[k]);
        }
    }
    match spec_arg_section(s, w) {
        Some((args, e)) => {
            let j = space_end(s, w);
            lemma_spec_citizen_valid(s, j);
            lemma_space_end(s, w);
            match spec_citizen(s, j) {
                Some((c0, m)) => {
                    crate::command::lemma_spec_citizen_advances(s, j);
                    lemma_arg_tail_valid(s, m);
                    assert forall|i: int| 0 <= i < c.arguments.len() implies valid_citizen(
                        c.arguments[i],
                    ) by {
                        assert(c.arguments == seq![c0] + spec_arg_tail(s, m).0);
                        if i > 0 {
                            assert(c.arguments[i] == spec_arg_tail(s, m).0[i - 1]);
                        }
                    }
                },
                None => {},
            }
        },
        None => {
            assert(c.arguments =~= Seq::<CitizenView>::empty());
        },
    }
    lemma_render_round_trip(c);
}

} // verus!
