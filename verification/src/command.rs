//! The command grammar: values (`Citizen`), the `Command` record, and the
//! parser that turns one line of text into a command.
//!
//! The grammar, bottom up:
//! - an identifier is one word, extended greedily by further space-separated
//!   words; it stops at the first character that is neither a word character
//!   nor a space (in particular at the separator `&`);
//! - a string literal is the token `quote`, at least one space, the content,
//!   and the first following occurrence of a space and a closing `quote`;
//!   once `quote` and a space have been read, a missing closing token fails
//!   the rule (it does not fall back to an identifier);
//! - a value (`Citizen`) is a string literal where one opens, else an
//!   identifier;
//! - the argument section is one leading space, then values separated by `&`
//!   (spaces around `&` belong to the separator);
//! - a command is an action word followed by an optional argument section.
//!
//! The identifier rule is deliberately greedy: `run a b` yields the single
//! argument `a b`, while `run a & b` yields the two arguments `a` and `b`.
//! Only `&` ends an identifier; an unseparated word joins the previous one.

use vstd::prelude::*;

use crate::scan::{
    is_ident_char, is_space_char, is_word_char, lemma_space_end, lemma_word_end, space_end,
    space_to, word_char, word_end, word_to,
};

verus! {

/// A Citizen is anything a command argument can reference: a bare (possibly
/// multi-word) identifier, or the content of a quoted string literal.
#[derive(Debug, Clone)]
pub enum Citizen {
    Identifier(String),
    Str(String),
}

/// The mathematical value of a `Citizen`: the same two variants over
/// character sequences.
pub enum CitizenView {
    Identifier(Seq<char>),
    Str(Seq<char>),
}

impl View for Citizen {
    type V = CitizenView;

    open spec fn view(&self) -> CitizenView {
        match self {
            Citizen::Identifier(t) => CitizenView::Identifier(t@),
            Citizen::Str(t) => CitizenView::Str(t@),
        }
    }
}

impl DeepView for Citizen {
    type V = CitizenView;

    open spec fn deep_view(&self) -> CitizenView {
        self.view()
    }
}

impl PartialEq for Citizen {
    /// Two citizens are equal when they carry the same variant and the same
    /// text; an identifier and a string holding the same text are not equal.
    fn eq(&self, other: &Self) -> (r: bool)
        ensures
            r == (self@ == other@),
    {
        match (self, other) {
            (Citizen::Identifier(s), Citizen::Identifier(o)) => *s == *o,
            (Citizen::Str(s), Citizen::Str(o)) => *s == *o,
            _ => false,
        }
    }
}

impl vstd::std_specs::cmp::PartialEqSpecImpl for Citizen {
    open spec fn obeys_eq_spec() -> bool {
        true
    }

    open spec fn eq_spec(&self, other: &Citizen) -> bool {
        self@ == other@
    }
}

/// A parsed command: an action name and its ordered argument list.
#[derive(Debug, Clone)]
pub struct Command {
    pub action: String,
    pub arguments: Vec<Citizen>,
}

/// The mathematical value of a `Command`.
pub struct CommandView {
    pub action: Seq<char>,
    pub arguments: Seq<CitizenView>,
}

impl View for Command {
    type V = CommandView;

    open spec fn view(&self) -> CommandView {
        CommandView { action: self.action@, arguments: self.arguments.deep_view() }
    }
}

/// Why a line was rejected: it was empty, or it did not match the command
/// grammar (which includes a string literal left unterminated, and trailing
/// text after a well-formed command).
#[derive(Debug, Clone, Copy, PartialEq, Eq, Structural)]
pub enum ParseError {
    EmptyInput,
    GrammarMismatch,
}

impl ParseError {
    /// A short report of the failure, for the caller to show.
    pub fn describe(&self) -> (r: &'static str)
        ensures
            *self is EmptyInput ==> r@ == "empty command"@,
            *self is GrammarMismatch ==> r@ == "could not parse command"@,
    {
        match self {
            ParseError::EmptyInput => "empty command",
            ParseError::GrammarMismatch => "could not parse command",
        }
    }
}

/// The delimiter token of string literals.
pub open spec fn quote_seq() -> Seq<char> {
    seq!['q', 'u', 'o', 't', 'e']
}

/// The delimiter token stands at `i`.
pub open spec fn quote_at(s: Seq<char>, i: int) -> bool {
    0 <= i && i + 5 <= s.len() && s.subrange(i, i + 5) == quote_seq()
}

/// A closing delimiter stands at `i`: a space, then the token.
pub open spec fn close_at(s: Seq<char>, i: int) -> bool {
    0 <= i && i + 6 <= s.len() && is_space_char(s[i]) && quote_at(s, i + 1)
}

/// The first position at or after `i` where a closing delimiter stands.
pub open spec fn find_close(s: Seq<char>, i: int) -> Option<int>
    decreases s.len() - i,
{
    if i < 0 || i + 6 > s.len() {
        None
    } else if close_at(s, i) {
        Some(i)
    } else {
        find_close(s, i + 1)
    }
}

/// A string literal opens at `i`: the token, then at least one space.
pub open spec fn opens_string(s: Seq<char>, i: int) -> bool {
    quote_at(s, i) && i + 5 < s.len() && is_space_char(s[i + 5])
}

/// The end of an identifier that starts at `i` (the caller has checked that a
/// word character stands at `i`): the first word run, extended as long as a
/// space run is followed by another word character.
pub open spec fn ident_end(s: Seq<char>, i: int) -> int
    decreases s.len() - i,
{
    let w = word_end(s, i);
    let j = space_end(s, w);
    if i < j < s.len() && is_word_char(s[j]) {
        ident_end(s, j)
    } else {
        w
    }
}

/// One value and the position after it, or `None` where no value can be read.
/// A string literal that opens but never closes fails here without falling
/// back to the identifier rule.
pub open spec fn spec_citizen(s: Seq<char>, i: int) -> Option<(CitizenView, int)> {
    if opens_string(s, i) {
        let k = space_end(s, i + 5);
        match find_close(s, k) {
            Some(m) => Some((CitizenView::Str(s.subrange(k, m)), m + 6)),
            None => None,
        }
    } else if 0 <= i < s.len() && is_word_char(s[i]) {
        Some((CitizenView::Identifier(s.subrange(i, ident_end(s, i))), ident_end(s, i)))
    } else {
        None
    }
}

/// The values that follow a first one: zero or more repetitions of a
/// separator (`&`, with spaces around it) and a further value. A separator
/// whose value cannot be read is left unconsumed.
pub open spec fn spec_arg_tail(s: Seq<char>, i: int) -> (Seq<CitizenView>, int)
    decreases s.len() - i,
{
    let j = space_end(s, i);
    if 0 <= i && j < s.len() && s[j] == '&' {
        let k = space_end(s, j + 1);
        match spec_citizen(s, k) {
            Some((c, m)) => {
                if i < m <= s.len() {
                    let (rest, e) = spec_arg_tail(s, m);
                    (seq![c] + rest, e)
                } else {
                    (Seq::empty(), i)
                }
            },
            None => (Seq::empty(), i),
        }
    } else {
        (Seq::empty(), i)
    }
}

/// The argument section: one leading space, then one or more values
/// separated by `&`. Where the leading space or the first value is missing,
/// the section is absent.
pub open spec fn spec_arg_section(s: Seq<char>, i: int) -> Option<(Seq<CitizenView>, int)> {
    if 0 <= i < s.len() && is_space_char(s[i]) {
        let j = space_end(s, i);
        match spec_citizen(s, j) {
            Some((c, m)) => {
                let (rest, e) = spec_arg_tail(s, m);
                Some((seq![c] + rest, e))
            },
            None => None,
        }
    } else {
        None
    }
}

/// A command and the position after it: the action word, then the argument
/// section where one is present.
pub open spec fn spec_command(s: Seq<char>) -> Option<(CommandView, int)> {
    if s.len() > 0 && is_word_char(s[0]) {
        let w = word_end(s, 0);
        let action = s.subrange(0, w);
        match spec_arg_section(s, w) {
            Some((args, e)) => Some((CommandView { action, arguments: args }, e)),
            None => Some((CommandView { action, arguments: Seq::empty() }, w)),
        }
    } else {
        None
    }
}

/// What `parse` returns on any input: the empty line is rejected as such;
/// otherwise the command grammar must match and consume the whole line.
pub open spec fn spec_parse(s: Seq<char>) -> Result<CommandView, ParseError> {
    if s.len() == 0 {
        Err(ParseError::EmptyInput)
    } else {
        match spec_command(s) {
            Some((cmd, e)) => {
                if e == s.len() {
                    Ok(cmd)
                } else {
                    Err(ParseError::GrammarMismatch)
                }
            },
            None => Err(ParseError::GrammarMismatch),
        }
    }
}

/// The textual rendering of one value: identifier text as it stands; string
/// content wrapped in the delimiter tokens.
pub open spec fn spec_render_citizen(c: CitizenView) -> Seq<char> {
    match c {
        CitizenView::Identifier(t) => t,
        CitizenView::Str(t) => quote_seq() + seq![' '] + t + seq![' '] + quote_seq(),
    }
}

/// The rendered values joined with the separator `&`.
pub open spec fn spec_render_args(args: Seq<CitizenView>) -> Seq<char>
    decreases args.len(),
{
    if args.len() == 0 {
        Seq::empty()
    } else if args.len() == 1 {
        spec_render_citizen(args[0])
    } else {
        spec_render_citizen(args[0]) + seq!['&'] + spec_render_args(args.drop_first())
    }
}

/// The textual rendering of a whole command: the action, then — where
/// arguments exist — one space and the joined arguments.
pub open spec fn spec_render(c: CommandView) -> Seq<char> {
    if c.arguments.len() == 0 {
        c.action
    } else {
        c.action + seq![' '] + spec_render_args(c.arguments)
    }
}

/// Joining one more value on the right appends one separator and its
/// rendering.
pub proof fn lemma_render_args_snoc(args: Seq<CitizenView>, i: int)
    requires
        1 <= i < args.len(),
    ensures
        spec_render_args(args.take(i + 1)) == spec_render_args(args.take(i)) + seq!['&']
            + spec_render_citizen(args[i]),
    decreases i,
{
    let a = args.take(i + 1);
    let b = args.take(i);
    assert(a.len() == i + 1 && b.len() == i && a[0] == args[0] && b[0] == args[0]);
    if i == 1 {
        assert(a.drop_first() =~= seq![args[1]]);
        assert(spec_render_args(a.drop_first()) == spec_render_citizen(args[1]));
        assert(spec_render_args(b) == spec_render_citizen(args[0]));
        assert(spec_render_args(a) == spec_render_citizen(args[0]) + seq!['&']
            + spec_render_citizen(args[1]));
    } else {
        lemma_render_args_snoc(args.drop_first(), i - 1);
        let d = args.drop_first();
        assert(a.drop_first() =~= d.take(i));
        assert(b.drop_first() =~= d.take(i - 1));
        assert(spec_render_args(a) == spec_render_citizen(args[0]) + seq!['&']
            + spec_render_args(d.take(i)));
        assert(spec_render_args(b) == spec_render_citizen(args[0]) + seq!['&']
            + spec_render_args(d.take(i - 1)));
        assert(spec_render_args(d.take(i)) == spec_render_args(d.take(i - 1)) + seq!['&']
            + spec_render_citizen(args[i]));
        assert(spec_render_args(a) =~= spec_render_args(b) + seq!['&'] + spec_render_citizen(
            args[i],
        ));
    }
}

impl Citizen {
    /// The textual rendering of this value; re-parsing it as a value yields
    /// this value back (see the grammar laws).
    pub fn render(&self) -> (r: String)
        ensures
            r@ == spec_render_citizen(self@),
    {
        match self {
            Citizen::Identifier(t) => t.clone(),
            Citizen::Str(t) => {
                let mut out = String::new();
                out.append("quote ");
                out.append(t.as_str());
                out.append(" quote");
                proof {
                    reveal_strlit("quote ");
                    reveal_strlit(" quote");
                    assert(out@ =~= quote_seq() + seq![' '] + t@ + seq![' '] + quote_seq());
                }
                out
            },
        }
    }
}

impl Command {
    /// The textual rendering of this command, in the grammar's own notation.
    pub fn render(&self) -> (r: String)
        ensures
            r@ == spec_render(self@),
    {
        let ghost dv = self.arguments.deep_view();
        let k = self.arguments.len();
        let mut out = self.action.clone();
        if k == 0 {
            return out;
        }
        out.append(" ");
        let f = self.arguments[0].render();
        out.append(f.as_str());
        proof {
            reveal_strlit(" ");
            assert(dv.take(1) =~= seq![dv[0]]);
            assert(out@ =~= self.action@ + seq![' '] + spec_render_args(dv.take(1)));
        }
        let mut i: usize = 1;
        while i < k
            invariant
                1 <= i <= k == self.arguments@.len(),
                dv == self.arguments.deep_view(),
                out@ == self.action@ + seq![' '] + spec_render_args(dv.take(i as int)),
            decreases k - i,
        {
            out.append("&");
            let r = self.arguments[i].render();
            out.append(r.as_str());
            proof {
                reveal_strlit("&");
                lemma_render_args_snoc(dv, i as int);
                assert(out@ =~= self.action@ + seq![' '] + spec_render_args(
                    dv.take(i as int + 1),
                ));
            }
            i = i + 1;
        }
        proof {
            assert(dv.take(k as int) =~= dv);
        }
        out
    }
}

/// What `find_close` returns: the position it finds holds a closing
/// delimiter and is the first such position; `None` means there is none.
pub proof fn lemma_find_close(s: Seq<char>, i: int)
    requires
        0 <= i <= s.len(),
    ensures
        match find_close(s, i) {
            Some(m) => i <= m && close_at(s, m) && forall|k: int| i <= k < m ==> !close_at(s, k),
            None => forall|k: int| i <= k ==> !close_at(s, k),
        },
    decreases s.len() - i,
{
    if i + 6 > s.len() {
        assert forall|k: int| i <= k implies !close_at(s, k) by {}
    } else if !close_at(s, i) {
        lemma_find_close(s, i + 1);
    }
}

/// What `ident_end` returns: it moves forward, spans identifier characters,
/// and ends on a word character.
pub proof fn lemma_ident_end(s: Seq<char>, i: int)
    requires
        0 <= i < s.len(),
        is_word_char(s[i]),
    ensures
        i < ident_end(s, i) <= s.len(),
        forall|k: int| i <= k < ident_end(s, i) ==> is_ident_char(s[k]),
        is_word_char(s[ident_end(s, i) - 1]),
    decreases s.len() - i,
{
    let w = word_end(s, i);
    let j = space_end(s, w);
    lemma_word_end(s, i);
    lemma_space_end(s, w);
    if i < j < s.len() && is_word_char(s[j]) {
        lemma_ident_end(s, j);
    }
}

/// Where a value is read, the position moves forward and stays inside the
/// text.
pub proof fn lemma_spec_citizen_advances(s: Seq<char>, i: int)
    requires
        0 <= i <= s.len(),
    ensures
        match spec_citizen(s, i) {
            Some((c, m)) => i < m <= s.len(),
            None => true,
        },
{
    if opens_string(s, i) {
        let k = space_end(s, i + 5);
        lemma_space_end(s, i + 5);
        lemma_find_close(s, k);
    } else if i < s.len() && is_word_char(s[i]) {
        lemma_ident_end(s, i);
    }
}

/// The delimiter token `quote` stands at `at`.
pub fn quote_tok_at(s: &str, at: usize) -> (r: bool)
    requires
        at <= s@.len(),
    ensures
        r == quote_at(s@, at as int),
{
    let n = s.unicode_len();
    if n - at < 5 {
        return false;
    }
    let r = s.get_char(at) == 'q' && s.get_char(at + 1) == 'u' && s.get_char(at + 2) == 'o'
        && s.get_char(at + 3) == 't' && s.get_char(at + 4) == 'e';
    proof {
        let a = at as int;
        let sub = s@.subrange(a, a + 5);
        if r {
            assert(sub =~= quote_seq());
        } else if quote_at(s@, a) {
            assert(s@[a] == sub[0] && s@[a + 1] == sub[1] && s@[a + 2] == sub[2] && s@[a + 3]
                == sub[3] && s@[a + 4] == sub[4]);
        }
    }
    r
}

/// Search forward from `from` for the first closing delimiter: a space
/// followed by the token `quote`.
fn find_close_from(s: &str, from: usize) -> (r: Option<usize>)
    requires
        from <= s@.len(),
    ensures
        match r {
            Some(m) => find_close(s@, from as int) == Some(m as int) && from <= m && m + 6
                <= s@.len(),
            None => find_close(s@, from as int) is None,
        },
{
    let n = s.unicode_len();
    let mut m = from;
    loop
        invariant
            from <= m <= n == s@.len(),
            find_close(s@, from as int) == find_close(s@, m as int),
        decreases n - m,
    {
        if n - m < 6 {
            return None;
        }
        if s.get_char(m) == ' ' && quote_tok_at(s, m + 1) {
            return Some(m);
        }
        proof {
            assert(!close_at(s@, m as int));
        }
        m = m + 1;
    }
}

/// Consume an identifier that starts at `from`, where a word character
/// stands.
fn ident_to(s: &str, from: usize) -> (r: usize)
    requires
        from < s@.len(),
        is_word_char(s@[from as int]),
    ensures
        r == ident_end(s@, from as int),
        from < r <= s@.len(),
{
    let n = s.unicode_len();
    let mut cur = from;
    let mut w = word_to(s, from);
    proof {
        lemma_word_end(s@, from as int);
    }
    loop
        invariant
            from <= cur < n == s@.len(),
            is_word_char(s@[cur as int]),
            w == word_end(s@, cur as int),
            cur < w <= n,
            ident_end(s@, from as int) == ident_end(s@, cur as int),
        decreases n - w,
    {
        let j = space_to(s, w);
        if j < n && word_char(s.get_char(j)) {
            proof {
                lemma_word_end(s@, j as int);
            }
            cur = j;
            w = word_to(s, j);
        } else {
            return w;
        }
    }
}

/// Read one value (a string literal where one opens, else an identifier)
/// from position `from`, returning it with the position after it.
pub fn citizen(s: &str, from: usize) -> (r: Option<(Citizen, usize)>)
    requires
        from <= s@.len(),
    ensures
        match r {
            Some(cp) => spec_citizen(s@, from as int) == Some((cp.0@, cp.1 as int)) && from < cp.1
                <= s@.len(),
            None => spec_citizen(s@, from as int) is None,
        },
{
    let n = s.unicode_len();
    if quote_tok_at(s, from) && from + 5 < n && s.get_char(from + 5) == ' ' {
        let k = space_to(s, from + 5);
        match find_close_from(s, k) {
            None => None,
            Some(m) => {
                let text = s.substring_char(k, m).to_owned();
                proof {
                    lemma_space_end(s@, from + 5);
                }
                Some((Citizen::Str(text), m + 6))
            },
        }
    } else {
        if from < n && word_char(s.get_char(from)) {
            let p = ident_to(s, from);
            let text = s.substring_char(from, p).to_owned();
            Some((Citizen::Identifier(text), p))
        } else {
            None
        }
    }
}

/// Read the argument section that starts at `from`: a leading space, then
/// one or more values separated by `&`.
fn arg_section(s: &str, from: usize) -> (r: Option<(Vec<Citizen>, usize)>)
    requires
        from <= s@.len(),
    ensures
        match r {
            Some(ap) => spec_arg_section(s@, from as int) == Some(
                (ap.0.deep_view(), ap.1 as int),
            ) && from <= ap.1 <= s@.len(),
            None => spec_arg_section(s@, from as int) is None,
        },
{
    let n = s.unicode_len();
    if !(from < n && s.get_char(from) == ' ') {
        return None;
    }
    let j = space_to(s, from);
    match citizen(s, j) {
        None => None,
        Some((first, m)) => {
            let mut args: Vec<Citizen> = Vec::new();
            args.push(first);
            let mut pos = m;
            proof {
                assert(args.deep_view() =~= seq![first@]);
            }
            loop
                invariant
                    from <= pos <= n == s@.len(),
                    spec_arg_section(s@, from as int) == Some(
                        (
                            args.deep_view() + spec_arg_tail(s@, pos as int).0,
                            spec_arg_tail(s@, pos as int).1,
                        ),
                    ),
                decreases n - pos,
            {
                let j2 = space_to(s, pos);
                let ghost old_args = args.deep_view();
                if j2 < n && s.get_char(j2) == '&' {
                    let k = space_to(s, j2 + 1);
                    match citizen(s, k) {
                        None => {
                            proof {
                                assert(args.deep_view() + spec_arg_tail(s@, pos as int).0
                                    =~= args.deep_view());
                            }
                            return Some((args, pos));
                        },
                        Some((c2, m2)) => {
                            args.push(c2);
                            proof {
                                assert(args.deep_view() =~= old_args.push(c2@));
                                assert(old_args + spec_arg_tail(s@, pos as int).0 =~= args.deep_view()
                                    + spec_arg_tail(s@, m2 as int).0);
                            }
                            pos = m2;
                        },
                    }
                } else {
                    proof {
                        assert(args.deep_view() + spec_arg_tail(s@, pos as int).0
                            =~= args.deep_view());
                    }
                    return Some((args, pos));
                }
            }
        },
    }
}

/// Parse one line of text into a command. The empty line is rejected as
/// `EmptyInput`; a line that the command grammar does not match, or matches
/// only a prefix of, is rejected as `GrammarMismatch`. On success the whole
/// line was consumed and the result is exactly what the grammar
/// (`spec_parse`) assigns to it.
pub fn parse(input: String) -> (r: Result<Command, ParseError>)
    ensures
        match r {
            Ok(cmd) => spec_parse(input@) == Ok::<CommandView, ParseError>(cmd@),
            Err(e) => spec_parse(input@) == Err::<CommandView, ParseError>(e),
        },
        r == Err::<Command, ParseError>(ParseError::EmptyInput) <==> input@.len() == 0,
        r is Ok <==> input@.len() > 0 && (spec_command(input@) matches Some((_, e)) && e
            == input@.len()),
{
    let s = input.as_str();
    let n = s.unicode_len();
    if n == 0 {
        return Err(ParseError::EmptyInput);
    }
    if !word_char(s.get_char(0)) {
        return Err(ParseError::GrammarMismatch);
    }
    let w = word_to(s, 0);
    let action = s.substring_char(0, w).to_owned();
    match arg_section(s, w) {
        Some((args, e)) => {
            if e == n {
                Ok(Command { action, arguments: args })
            } else {
                Err(ParseError::GrammarMismatch)
            }
        },
        None => {
            if w == n {
                let cmd = Command { action, arguments: Vec::new() };
                proof {
                    assert(cmd.arguments.deep_view() =~= Seq::<CitizenView>::empty());
                }
                Ok(cmd)
            } else {
                Err(ParseError::GrammarMismatch)
            }
        },
    }
}

} // verus!
