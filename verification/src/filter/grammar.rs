//! The grammar of one filter directive.
//!
//! ```text
//! directive    := off | level | head ('=' (off | level))?
//! head         := target? ('[' (clause (',' clause)*)? ']')?
//! target       := any but '=' '[' ',' and white space
//! clause       := key '=' value
//! key          := any but '=' ',' ']'
//! value        := '"' any but '"' '"' | any but ',' ']'
//! ```
//!
//! White space around a key or an unquoted value does not count.
//!
//! Levels and `off` are read without regard to case. A word that `=` or `[`
//! follows is a target, whatever it spells. A directive names a target or a
//! clause unless it is a bare level.
//!
//! Where a text spells no directive, the fault is at what is left over once
//! everything that fits was read. It is behind a word that is no level, and at
//! the front where neither a target nor a clause is named.

use vstd::prelude::*;
use vstd::slice::slice_subrange;

use crate::text::{self, copy_opt, copy_pairs, eq_ignore_case, is_whitespace, text_of, trim};
use crate::types::Severity;

verus! {

/// A kind of character.
#[derive(Debug, Clone, Copy, PartialEq, Eq, Structural)]
pub enum CharClass {
    /// ASCII white space.
    Space,
    /// What a target or a level is made of.
    Target,
    /// What the key of a clause is made of.
    Key,
    /// What an unquoted value is made of.
    Value,
    /// What a quoted value is made of.
    Quoted,
}

/// Whether a character is of a kind.
pub open spec fn in_class(class: CharClass, c: char) -> bool {
    match class {
        CharClass::Space => c == ' ' || c == '\t' || c == '\r' || c == '\n',
        CharClass::Target => c != '=' && c != '[' && c != ',' && !text::is_space(c),
        CharClass::Key => c != '=' && c != ',' && c != ']',
        CharClass::Value => c != ',' && c != ']',
        CharClass::Quoted => c != '"',
    }
}

/// How many characters of a kind `s` begins with.
pub open spec fn run_len(s: Seq<char>, class: CharClass) -> nat
    decreases s.len(),
{
    if s.len() > 0 && in_class(class, s[0]) {
        1 + run_len(s.skip(1), class)
    } else {
        0
    }
}

/// The characters of a kind that `s` begins with.
pub open spec fn run(s: Seq<char>, class: CharClass) -> Seq<char> {
    s.take(run_len(s, class) as int)
}

/// What follows them.
pub open spec fn after_run(s: Seq<char>, class: CharClass) -> Seq<char> {
    s.skip(run_len(s, class) as int)
}

/// `s` without the ASCII white space at its front.
pub open spec fn skip_space(s: Seq<char>) -> Seq<char> {
    after_run(s, CharClass::Space)
}

/// Whether `s` begins with `c`.
pub open spec fn begins(s: Seq<char>, c: char) -> bool {
    s.len() > 0 && s[0] == c
}

/// The level that a word stands for.
pub open spec fn level_of(word: Seq<char>) -> Option<Severity> {
    let w = text::lowered(word);
    if w == text::lowered("trace"@) {
        Some(Severity::Trace)
    } else if w == text::lowered("debug"@) {
        Some(Severity::Debug)
    } else if w == text::lowered("info"@) {
        Some(Severity::Info)
    } else if w == text::lowered("warn"@) {
        Some(Severity::Warn)
    } else if w == text::lowered("error"@) {
        Some(Severity::Error)
    } else if w == text::lowered("fatal"@) {
        Some(Severity::Fatal)
    } else {
        None
    }
}

/// Whether a word is `off`.
pub open spec fn is_off(word: Seq<char>) -> bool {
    text::lowered(word) == text::lowered("off"@)
}

/// A value and what follows it.
pub open spec fn value_at(s: Seq<char>) -> Option<(Seq<char>, Seq<char>)> {
    if begins(s, '"') {
        let inner = s.skip(1);
        let rest = after_run(inner, CharClass::Quoted);
        if begins(rest, '"') {
            Some((run(inner, CharClass::Quoted), rest.skip(1)))
        } else {
            None
        }
    } else {
        Some((text::trimmed(run(s, CharClass::Value)), after_run(s, CharClass::Value)))
    }
}

/// A clause and what follows it.
pub open spec fn clause_at(s: Seq<char>) -> Option<((Seq<char>, Seq<char>), Seq<char>)> {
    let s1 = skip_space(s);
    let key = text::trimmed(run(s1, CharClass::Key));
    let s2 = after_run(s1, CharClass::Key);
    if key.len() == 0 || !begins(s2, '=') {
        None
    } else {
        match value_at(skip_space(s2.skip(1))) {
            Some((value, rest)) => Some(((key, value), skip_space(rest))),
            None => None,
        }
    }
}

/// The clauses that follow, each after a comma, and what follows those. A
/// comma that no clause follows is left.
pub open spec fn more_clauses(s: Seq<char>) -> (Seq<(Seq<char>, Seq<char>)>, Seq<char>)
    decreases s.len(),
{
    if !begins(s, ',') {
        (Seq::empty(), s)
    } else {
        match clause_at(s.skip(1)) {
            Some((clause, rest)) => if rest.len() < s.len() {
                let (tail, end) = more_clauses(rest);
                (seq![clause] + tail, end)
            } else {
                arbitrary()
            },
            None => (Seq::empty(), s),
        }
    }
}

/// The clauses at the front of `s` and what follows them.
pub open spec fn clauses_at(s: Seq<char>) -> (Seq<(Seq<char>, Seq<char>)>, Seq<char>) {
    match clause_at(s) {
        Some((clause, rest)) => {
            let (tail, end) = more_clauses(rest);
            (seq![clause] + tail, end)
        },
        None => (Seq::empty(), s),
    }
}

/// The clauses between brackets and what follows the brackets.
pub open spec fn block_at(s: Seq<char>) -> Option<(Seq<(Seq<char>, Seq<char>)>, Seq<char>)> {
    if !begins(s, '[') {
        None
    } else {
        let (clauses, rest) = clauses_at(skip_space(s.skip(1)));
        let end = skip_space(rest);
        if begins(end, ']') {
            Some((clauses, end.skip(1)))
        } else {
            None
        }
    }
}

/// What a directive says.
pub struct DirectiveView {
    pub target: Option<Seq<char>>,
    pub fields: Seq<(Seq<char>, Seq<char>)>,
    pub level: Severity,
    pub off: bool,
}

/// The level behind a head, and what follows it: none given is `Trace`. A word
/// that is no level is a fault, which is at what follows the word.
pub open spec fn level_at(s: Seq<char>) -> Result<((Severity, bool), Seq<char>), Seq<char>> {
    let s1 = skip_space(s.skip(1));
    let word = run(s1, CharClass::Target);
    let rest = after_run(s1, CharClass::Target);
    if !begins(s, '=') || word.len() == 0 {
        Ok(((Severity::Trace, false), s))
    } else if is_off(word) {
        Ok(((Severity::Trace, true), rest))
    } else {
        match level_of(word) {
            Some(level) => Ok(((level, false), rest)),
            None => Err(rest),
        }
    }
}

/// A directive that nothing but white space may follow.
pub open spec fn ended(d: DirectiveView, rest: Seq<char>) -> Result<DirectiveView, Seq<char>> {
    if skip_space(rest).len() == 0 {
        Ok(d)
    } else {
        Err(skip_space(rest))
    }
}

/// The directive whose head begins with the word `word`, before `rest`. A
/// block that does not close is left over.
pub open spec fn headed(word: Seq<char>, rest: Seq<char>) -> Result<DirectiveView, Seq<char>> {
    let (fields, r1) = match block_at(rest) {
        Some(block) => block,
        None => (Seq::empty(), rest),
    };
    match level_at(skip_space(r1)) {
        Err(fault) => Err(fault),
        Ok(((level, off), r2)) => {
            let target = if word.len() == 0 {
                None
            } else {
                Some(word)
            };
            match ended(DirectiveView { target, fields, level, off }, r2) {
                Err(fault) => Err(fault),
                Ok(d) => if word.len() == 0 && fields.len() == 0 {
                    Err(rest)
                } else {
                    Ok(d)
                },
            }
        },
    }
}

/// The directive that `s` spells, or where it spells none the end of `s` that
/// begins at the fault.
pub open spec fn directive_of(s: Seq<char>) -> Result<DirectiveView, Seq<char>> {
    let s1 = skip_space(s);
    let word = run(s1, CharClass::Target);
    let rest = after_run(s1, CharClass::Target);
    let bare = word.len() > 0 && !begins(rest, '=') && !begins(rest, '[');
    let plain = |level: Severity, off: bool|
        DirectiveView { target: None, fields: Seq::empty(), level, off };
    if bare && is_off(word) {
        ended(plain(Severity::Trace, true), rest)
    } else if bare && level_of(word) is Some {
        ended(plain(level_of(word)->Some_0, false), rest)
    } else {
        headed(word, rest)
    }
}

// ---------------------------------------------------------------------------
// Reading.
// ---------------------------------------------------------------------------
/// One directive.
#[derive(Debug)]
pub struct Directive {
    /// The module or event that it is about; `None` for all of them.
    pub target: Option<String>,
    /// The labels that it asks for. Without any it is a static directive.
    pub fields: Vec<(String, String)>,
    /// The least severity that it lets pass.
    pub level: Severity,
    /// Whether it lets nothing pass.
    pub off: bool,
}

/// Clauses as text.
pub open spec fn clause_texts(fields: Seq<(String, String)>) -> Seq<(Seq<char>, Seq<char>)> {
    fields.map_values(|p: (String, String)| (p.0@, p.1@))
}

impl View for Directive {
    type V = DirectiveView;

    open spec fn view(&self) -> DirectiveView {
        DirectiveView {
            target: match self.target {
                Some(t) => Some(t@),
                None => None,
            },
            fields: clause_texts(self.fields@),
            level: self.level,
            off: self.off,
        }
    }
}

impl Clone for Directive {
    fn clone(&self) -> (r: Self)
        ensures
            r@ == self@,
    {
        Directive {
            target: copy_opt(&self.target),
            fields: copy_pairs(&self.fields),
            level: self.level,
            off: self.off,
        }
    }
}

fn class_has(class: CharClass, c: char) -> (r: bool)
    ensures
        r == in_class(class, c),
{
    match class {
        CharClass::Space => c == ' ' || c == '\t' || c == '\r' || c == '\n',
        CharClass::Target => c != '=' && c != '[' && c != ',' && !is_whitespace(c),
        CharClass::Key => c != '=' && c != ',' && c != ']',
        CharClass::Value => c != ',' && c != ']',
        CharClass::Quoted => c != '"',
    }
}

fn first_is(s: &[char], c: char) -> (r: bool)
    ensures
        r == begins(s@, c),
{
    s.len() > 0 && s[0] == c
}

fn rest_of(s: &[char], n: usize) -> (r: &[char])
    requires
        n <= s@.len(),
    ensures
        r@ == s@.skip(n as int),
{
    slice_subrange(s, n, s.len())
}

/// Splits `s` behind the characters of a kind that it begins with.
fn take_run(s: &[char], class: CharClass) -> (r: (&[char], &[char]))
    ensures
        r.0@ == run(s@, class),
        r.1@ == after_run(s@, class),
        r.0@.len() + r.1@.len() == s@.len(),
{
    let mut n: usize = 0;
    proof {
        assert(s@.skip(0) =~= s@);
    }
    while n < s.len() && class_has(class, s[n])
        invariant
            n <= s@.len(),
            run_len(s@, class) == n + run_len(s@.skip(n as int), class),
        decreases s@.len() - n,
    {
        proof {
            assert(s@.skip(n as int).skip(1) =~= s@.skip(n + 1));
        }
        n = n + 1;
    }
    proof {
        assert(run_len(s@.skip(n as int), class) == 0);
    }
    (slice_subrange(s, 0, n), rest_of(s, n))
}

fn skip_spaces(s: &[char]) -> (r: &[char])
    ensures
        r@ == skip_space(s@),
        r@.len() <= s@.len(),
{
    take_run(s, CharClass::Space).1
}

fn read_level(word: &[char]) -> (r: Option<Severity>)
    ensures
        r == level_of(word@),
{
    if eq_ignore_case(word, "trace") {
        Some(Severity::Trace)
    } else if eq_ignore_case(word, "debug") {
        Some(Severity::Debug)
    } else if eq_ignore_case(word, "info") {
        Some(Severity::Info)
    } else if eq_ignore_case(word, "warn") {
        Some(Severity::Warn)
    } else if eq_ignore_case(word, "error") {
        Some(Severity::Error)
    } else if eq_ignore_case(word, "fatal") {
        Some(Severity::Fatal)
    } else {
        None
    }
}

fn read_value(s: &[char]) -> (r: Option<(String, &[char])>)
    ensures
        match (value_at(s@), r) {
            (Some((v, rest)), Some((value, left))) => {
                &&& value@ == v
                &&& left@ == rest
                &&& left@.len() <= s@.len()
            },
            (None, None) => true,
            _ => false,
        },
{
    if first_is(s, '"') {
        let (inner, rest) = take_run(rest_of(s, 1), CharClass::Quoted);
        if first_is(rest, '"') {
            return Some((text_of(inner), rest_of(rest, 1)));
        }
        return None;
    }
    let (raw, rest) = take_run(s, CharClass::Value);
    Some((text_of(trim(raw)), rest))
}

fn read_clause(s: &[char]) -> (r: Option<((String, String), &[char])>)
    ensures
        match (clause_at(s@), r) {
            (Some((c, rest)), Some((clause, left))) => {
                &&& (clause.0@, clause.1@) == c
                &&& left@ == rest
                &&& left@.len() <= s@.len()
            },
            (None, None) => true,
            _ => false,
        },
{
    let (raw, s2) = take_run(skip_spaces(s), CharClass::Key);
    let key = trim(raw);
    if key.len() == 0 || !first_is(s2, '=') {
        return None;
    }
    match read_value(skip_spaces(rest_of(s2, 1))) {
        Some((value, rest)) => Some(((text_of(key), value), skip_spaces(rest))),
        None => None,
    }
}

fn read_clauses(s: &[char]) -> (r: (Vec<(String, String)>, &[char]))
    ensures
        clause_texts(r.0@) == clauses_at(s@).0,
        r.1@ == clauses_at(s@).1,
        r.1@.len() <= s@.len(),
{
    let mut out: Vec<(String, String)> = Vec::new();
    proof {
        assert(clause_texts(out@) =~= Seq::<(Seq<char>, Seq<char>)>::empty());
    }
    match read_clause(s) {
        None => (out, s),
        Some((first, rest)) => {
            let ghost head = (first.0@, first.1@);
            out.push(first);
            proof {
                assert(clause_texts(out@) =~= seq![head]);
                assert(seq![head] + more_clauses(rest@).0 =~= clauses_at(s@).0);
            }
            let mut rest = rest;
            while first_is(rest, ',')
                invariant
                    rest@.len() <= s@.len(),
                    clause_texts(out@) + more_clauses(rest@).0 =~= clauses_at(s@).0,
                    more_clauses(rest@).1 == clauses_at(s@).1,
                decreases rest@.len(),
            {
                match read_clause(rest_of(rest, 1)) {
                    None => {
                        proof {
                            assert(clause_texts(out@) + Seq::<(Seq<char>, Seq<char>)>::empty()
                                =~= clause_texts(out@));
                        }
                        return (out, rest);
                    },
                    Some((clause, left)) => {
                        let ghost c = (clause.0@, clause.1@);
                        let ghost was = out@;
                        out.push(clause);
                        proof {
                            assert(clause_texts(out@) =~= clause_texts(was).push(c));
                            assert(clause_texts(was) + (seq![c] + more_clauses(left@).0)
                                =~= clause_texts(out@) + more_clauses(left@).0);
                        }
                        rest = left;
                    },
                }
            }
            (out, rest)
        },
    }
}

fn read_block(s: &[char]) -> (r: Option<(Vec<(String, String)>, &[char])>)
    ensures
        match (block_at(s@), r) {
            (Some((c, rest)), Some((clauses, left))) => {
                &&& clause_texts(clauses@) == c
                &&& left@ == rest
                &&& left@.len() <= s@.len()
            },
            (None, None) => true,
            _ => false,
        },
{
    if !first_is(s, '[') {
        return None;
    }
    let (clauses, rest) = read_clauses(skip_spaces(rest_of(s, 1)));
    let end = skip_spaces(rest);
    if first_is(end, ']') {
        Some((clauses, rest_of(end, 1)))
    } else {
        None
    }
}

fn read_level_or_off(s: &[char]) -> (r: Result<((Severity, bool), &[char]), &[char]>)
    ensures
        match (level_at(s@), r) {
            (Ok((l, rest)), Ok((level, left))) => {
                &&& level == l
                &&& left@ == rest
                &&& left@.len() <= s@.len()
            },
            (Err(fault), Err(at)) => at@ == fault && at@.len() <= s@.len(),
            _ => false,
        },
{
    if !first_is(s, '=') {
        return Ok(((Severity::Trace, false), s));
    }
    let (word, rest) = take_run(skip_spaces(rest_of(s, 1)), CharClass::Target);
    if word.len() == 0 {
        return Ok(((Severity::Trace, false), s));
    }
    if eq_ignore_case(word, "off") {
        return Ok(((Severity::Trace, true), rest));
    }
    match read_level(word) {
        Some(level) => Ok(((level, false), rest)),
        None => Err(rest),
    }
}

/// Whether a reading is what a text spells, and its fault lies in the text.
spec fn is_reading(
    spelt: Result<DirectiveView, Seq<char>>,
    s: Seq<char>,
    r: Result<Directive, &[char]>,
) -> bool {
    match (spelt, r) {
        (Ok(d), Ok(directive)) => directive@ == d,
        (Err(fault), Err(at)) => at@ == fault && at@.len() <= s.len(),
        _ => false,
    }
}

fn read_end(directive: Directive, rest: &[char]) -> (r: Result<Directive, &[char]>)
    ensures
        is_reading(ended(directive@, rest@), rest@, r),
{
    let end = skip_spaces(rest);
    if end.len() == 0 {
        Ok(directive)
    } else {
        Err(end)
    }
}

fn read_headed<'a>(word: &[char], rest: &'a [char]) -> (r: Result<Directive, &'a [char]>)
    ensures
        is_reading(headed(word@, rest@), rest@, r),
{
    let (fields, r1) = match read_block(rest) {
        Some(block) => block,
        None => {
            let fields: Vec<(String, String)> = Vec::new();
            proof {
                assert(clause_texts(fields@) =~= Seq::<(Seq<char>, Seq<char>)>::empty());
            }
            (fields, rest)
        },
    };
    proof {
        assert(clause_texts(fields@).len() == fields@.len());
    }
    let ((level, off), r2) = match read_level_or_off(skip_spaces(r1)) {
        Ok(l) => l,
        Err(at) => return Err(at),
    };
    let nameless = word.len() == 0 && fields.len() == 0;
    let target = if word.len() == 0 {
        None
    } else {
        Some(text_of(word))
    };
    match read_end(Directive { target, fields, level, off }, r2) {
        Ok(directive) => if nameless {
            Err(rest)
        } else {
            Ok(directive)
        },
        Err(at) => Err(at),
    }
}

/// Reads one directive, or finds the end of the text that begins at the fault.
pub fn read_directive(s: &[char]) -> (r: Result<Directive, &[char]>)
    ensures
        match (directive_of(s@), r) {
            (Ok(d), Ok(directive)) => directive@ == d,
            (Err(fault), Err(at)) => at@ == fault && at@.len() <= s@.len(),
            _ => false,
        },
{
    let (word, rest) = take_run(skip_spaces(s), CharClass::Target);
    let bare = word.len() > 0 && !first_is(rest, '=') && !first_is(rest, '[');
    if bare {
        let off = eq_ignore_case(word, "off");
        let level = if off {
            Some(Severity::Trace)
        } else {
            read_level(word)
        };
        if let Some(level) = level {
            let fields: Vec<(String, String)> = Vec::new();
            proof {
                assert(clause_texts(fields@) =~= Seq::<(Seq<char>, Seq<char>)>::empty());
            }
            return read_end(Directive { target: None, fields, level, off }, rest);
        }
    }
    read_headed(word, rest)
}

// ---------------------------------------------------------------------------
// Laws: what is written as a directive is read as that directive.
// ---------------------------------------------------------------------------
/// Whether every character of a text is of a kind.
pub open spec fn all_in(s: Seq<char>, class: CharClass) -> bool {
    forall|i: int| 0 <= i < s.len() ==> in_class(class, #[trigger] s[i])
}

proof fn lemma_run(a: Seq<char>, rest: Seq<char>, class: CharClass)
    requires
        all_in(a, class),
        rest.len() == 0 || !in_class(class, rest[0]),
    ensures
        run_len(a + rest, class) == a.len(),
        run(a + rest, class) == a,
        after_run(a + rest, class) == rest,
    decreases a.len(),
{
    let s = a + rest;
    if a.len() == 0 {
        assert(s =~= rest);
    } else {
        let tail = a.skip(1);
        assert forall|i: int| 0 <= i < tail.len() implies in_class(class, #[trigger] tail[i]) by {
            assert(tail[i] == a[i + 1]);
        }
        lemma_run(tail, rest, class);
        assert(s.skip(1) =~= tail + rest);
        assert(s[0] == a[0]);
    }
    assert(run(s, class) =~= a);
    assert(after_run(s, class) =~= rest);
}

proof fn lemma_no_space(s: Seq<char>)
    requires
        s.len() == 0 || !in_class(CharClass::Space, s[0]),
    ensures
        skip_space(s) == s,
{
    assert(s.skip(0) =~= s);
}

/// A target is any text without `=`, `[`, `,` and white space.
pub open spec fn is_target(t: Seq<char>) -> bool {
    t.len() > 0 && forall|i: int|
        0 <= i < t.len() ==> #[trigger] t[i] != '=' && t[i] != '[' && t[i] != ','
            && !text::is_space(t[i])
}

proof fn lemma_words()
    ensures
        is_target("trace"@),
        is_target("debug"@),
        is_target("info"@),
        is_target("warn"@),
        is_target("error"@),
        is_target("fatal"@),
        is_target("off"@),
        text::lowered("trace"@)[0] == 't',
        text::lowered("debug"@)[0] == 'd',
        text::lowered("info"@)[0] == 'i',
        text::lowered("warn"@)[0] == 'w',
        text::lowered("error"@)[0] == 'e',
        text::lowered("fatal"@)[0] == 'f',
        text::lowered("off"@)[0] == 'o',
{
    reveal_strlit("trace");
    reveal_strlit("debug");
    reveal_strlit("info");
    reveal_strlit("warn");
    reveal_strlit("error");
    reveal_strlit("fatal");
    reveal_strlit("off");
}

/// Every level is read from its name, in any case of its letters, and no other
/// word is a level; `off` is read likewise and is none.
pub proof fn law_levels_are_read_in_any_case(word: Seq<char>, sev: Severity)
    ensures
        text::lowered(word) == text::lowered(sev.name()) && sev != Severity::Unspecified
            ==> level_of(word) == Some(sev) && !is_off(word),
        level_of(word) == Some(sev) ==> text::lowered(word) == text::lowered(sev.name()) && sev
            != Severity::Unspecified,
        text::lowered(word) == text::lowered("off"@) <==> is_off(word),
        is_off(word) ==> level_of(word) is None,
{
    lemma_words();
}

proof fn lemma_word_at(word: Seq<char>, rest: Seq<char>)
    requires
        is_target(word),
        rest.len() == 0 || rest[0] == '=' || rest[0] == '[' || rest[0] == ' ',
    ensures
        skip_space(word + rest) == word + rest,
        run(word + rest, CharClass::Target) == word,
        after_run(word + rest, CharClass::Target) == rest,
{
    assert(all_in(word, CharClass::Target));
    lemma_run(word, rest, CharClass::Target);
    assert((word + rest)[0] == word[0]);
    lemma_no_space(word + rest);
}

/// A bare level sets the floor, and a bare `off` does: neither names a target or
/// a clause.
pub proof fn law_bare_levels_are_read(word: Seq<char>, sev: Severity)
    requires
        is_target(word),
    ensures
        text::lowered(word) == text::lowered(sev.name()) && sev != Severity::Unspecified
            ==> directive_of(word) == Ok::<DirectiveView, Seq<char>>(
            DirectiveView { target: None, fields: Seq::empty(), level: sev, off: false },
        ),
        text::lowered(word) == text::lowered("off"@) ==> (directive_of(word) matches Ok(d)
            && d.target is None && d.fields.len() == 0 && d.off),
{
    lemma_word_at(word, Seq::empty());
    assert(word + Seq::<char>::empty() =~= word);
    law_levels_are_read_in_any_case(word, sev);
    lemma_no_space(Seq::empty());
}

/// What stands behind a head: `=` and a level, `=` and `off`, or nothing.
pub open spec fn level_text(level: Severity, off: bool, given: bool) -> Seq<char> {
    if !given {
        Seq::empty()
    } else if off {
        seq!['='] + "off"@
    } else {
        seq!['='] + level.name()
    }
}

proof fn lemma_level_text(level: Severity, off: bool, given: bool)
    requires
        level != Severity::Unspecified,
        off ==> level == Severity::Trace && given,
        !given ==> level == Severity::Trace,
    ensures
        ({
            let s = level_text(level, off, given);
            &&& skip_space(s) == s
            &&& level_at(s) == Ok::<((Severity, bool), Seq<char>), Seq<char>>(
                ((level, off), Seq::empty()),
            )
            &&& !begins(s, '[')
        }),
{
    let s = level_text(level, off, given);
    lemma_words();
    lemma_no_space(s);
    if given {
        let word = if off {
            "off"@
        } else {
            level.name()
        };
        assert(s.skip(1) =~= word);
        lemma_word_at(word, Seq::empty());
        assert(word + Seq::<char>::empty() =~= word);
        law_levels_are_read_in_any_case(word, level);
    }
}

/// A target with a level, with `off`, or alone is read as a directive for that
/// target; alone it lets everything from `Trace` on pass.
pub proof fn law_targets_are_read(t: Seq<char>, level: Severity, off: bool, given: bool)
    requires
        is_target(t),
        level != Severity::Unspecified,
        off ==> level == Severity::Trace && given,
        !given ==> level == Severity::Trace && level_of(t) is None && !is_off(t),
    ensures
        directive_of(t + level_text(level, off, given)) == Ok::<DirectiveView, Seq<char>>(
            DirectiveView { target: Some(t), fields: Seq::empty(), level, off },
        ),
{
    let s = level_text(level, off, given);
    lemma_level_text(level, off, given);
    lemma_word_at(t, s);
    lemma_no_space(Seq::empty());
}

/// Whether a text can be the key of a clause as it stands.
pub open spec fn is_key(k: Seq<char>) -> bool {
    &&& k.len() > 0
    &&& !text::is_space(k[0])
    &&& !text::is_space(k.last())
    &&& forall|i: int| 0 <= i < k.len() ==> #[trigger] k[i] != '=' && k[i] != ',' && k[i] != ']'
}

/// Whether a text can be the value of a clause as it stands, without quotes.
pub open spec fn is_bare_value(v: Seq<char>) -> bool {
    &&& v.len() > 0 ==> !text::is_space(v[0]) && !text::is_space(v.last()) && v[0] != '"'
    &&& forall|i: int| 0 <= i < v.len() ==> #[trigger] v[i] != ',' && v[i] != ']'
}

/// A clause as it is written: a value that does not stand for itself is put in
/// quotes.
pub open spec fn clause_text(k: Seq<char>, v: Seq<char>) -> Seq<char> {
    if is_bare_value(v) {
        k + seq!['='] + v
    } else {
        k + seq!['=', '"'] + v + seq!['"']
    }
}

/// Whether a clause can be written.
pub open spec fn can_be_written(c: (Seq<char>, Seq<char>)) -> bool {
    is_key(c.0) && (is_bare_value(c.1) || forall|i: int|
        0 <= i < c.1.len() ==> #[trigger] c.1[i] != '"')
}

proof fn lemma_clause(c: (Seq<char>, Seq<char>), rest: Seq<char>)
    requires
        can_be_written(c),
        rest.len() > 0,
        rest[0] == ',' || rest[0] == ']',
    ensures
        clause_at(clause_text(c.0, c.1) + rest) == Some((c, rest)),
        clause_text(c.0, c.1).len() > 0,
{
    let (k, v) = c;
    let s = clause_text(k, v) + rest;
    assert(s[0] == k[0]);
    lemma_no_space(s);
    text::law_trimmed_stays(k);
    lemma_no_space(rest);
    if is_bare_value(v) {
        let behind = seq!['='] + v + rest;
        assert(s =~= k + behind);
        lemma_run(k, behind, CharClass::Key);
        assert(behind.skip(1) =~= v + rest);
        if v.len() > 0 {
            assert((v + rest)[0] == v[0]);
        } else {
            assert((v + rest)[0] == rest[0]);
        }
        lemma_no_space(v + rest);
        lemma_run(v, rest, CharClass::Value);
        text::law_trimmed_stays(v);
    } else {
        let quoted = seq!['"'] + v + seq!['"'] + rest;
        let behind = seq!['='] + quoted;
        assert(s =~= k + behind);
        lemma_run(k, behind, CharClass::Key);
        assert(behind.skip(1) =~= quoted);
        lemma_no_space(quoted);
        assert(quoted.skip(1) =~= v + (seq!['"'] + rest));
        lemma_run(v, seq!['"'] + rest, CharClass::Quoted);
        assert((seq!['"'] + rest).skip(1) =~= rest);
    }
}

/// Clauses, each after a comma.
pub open spec fn more_text(list: Seq<(Seq<char>, Seq<char>)>) -> Seq<char>
    decreases list.len(),
{
    if list.len() == 0 {
        Seq::empty()
    } else {
        seq![','] + clause_text(list[0].0, list[0].1) + more_text(list.skip(1))
    }
}

/// A block of clauses as it is written: between brackets, with commas between
/// them.
pub open spec fn block_text(list: Seq<(Seq<char>, Seq<char>)>) -> Seq<char> {
    seq!['['] + clause_text(list[0].0, list[0].1) + more_text(list.skip(1)) + seq![']']
}

proof fn lemma_more(list: Seq<(Seq<char>, Seq<char>)>, rest: Seq<char>)
    requires
        forall|i: int| 0 <= i < list.len() ==> can_be_written(#[trigger] list[i]),
        rest.len() > 0,
        rest[0] == ']',
    ensures
        more_clauses(more_text(list) + rest) == (list, rest),
    decreases list.len(),
{
    if list.len() == 0 {
        assert(more_text(list) + rest =~= rest);
        assert(list =~= Seq::<(Seq<char>, Seq<char>)>::empty());
    } else {
        let tail = list.skip(1);
        assert forall|i: int| 0 <= i < tail.len() implies can_be_written(#[trigger] tail[i]) by {
            assert(tail[i] == list[i + 1]);
        }
        lemma_more(tail, rest);
        let next = more_text(tail) + rest;
        assert(next[0] == ',' || next[0] == ']') by {
            if tail.len() > 0 {
                assert(next[0] == more_text(tail)[0]);
            } else {
                assert(next[0] == rest[0]);
            }
        }
        let s = more_text(list) + rest;
        assert(s.skip(1) =~= clause_text(list[0].0, list[0].1) + next);
        lemma_clause(list[0], next);
        assert(seq![list[0]] + tail =~= list);
    }
}

proof fn lemma_block(list: Seq<(Seq<char>, Seq<char>)>, rest: Seq<char>)
    requires
        list.len() > 0,
        forall|i: int| 0 <= i < list.len() ==> can_be_written(#[trigger] list[i]),
    ensures
        block_at(block_text(list) + rest) == Some((list, rest)),
{
    let tail = list.skip(1);
    assert forall|i: int| 0 <= i < tail.len() implies can_be_written(#[trigger] tail[i]) by {
        assert(tail[i] == list[i + 1]);
    }
    let end = seq![']'] + rest;
    lemma_more(tail, end);
    let next = more_text(tail) + end;
    assert(next[0] == ',' || next[0] == ']') by {
        if tail.len() > 0 {
            assert(next[0] == more_text(tail)[0]);
        } else {
            assert(next[0] == end[0]);
        }
    }
    let s = block_text(list) + rest;
    let first = clause_text(list[0].0, list[0].1) + next;
    assert(s.skip(1) =~= first);
    lemma_clause(list[0], next);
    assert(first[0] == list[0].0[0]);
    lemma_no_space(first);
    lemma_no_space(end);
    assert(seq![list[0]] + tail =~= list);
    assert(end.skip(1) =~= rest);
}

/// A directive with clauses is read with all of them, in order, each key with
/// its value, quoted or not, with the target that stands before them and the
/// level that stands behind.
pub proof fn law_clauses_are_read(
    t: Option<Seq<char>>,
    list: Seq<(Seq<char>, Seq<char>)>,
    level: Severity,
    off: bool,
    given: bool,
)
    requires
        t matches Some(name) ==> is_target(name),
        list.len() > 0,
        forall|i: int| 0 <= i < list.len() ==> can_be_written(#[trigger] list[i]),
        level != Severity::Unspecified,
        off ==> level == Severity::Trace && given,
        !given ==> level == Severity::Trace,
    ensures
        ({
            let head = match t {
                Some(name) => name,
                None => Seq::empty(),
            };
            directive_of(head + block_text(list) + level_text(level, off, given)) == Ok::<
                DirectiveView,
                Seq<char>,
            >(DirectiveView { target: t, fields: list, level, off })
        }),
{
    let behind = level_text(level, off, given);
    lemma_level_text(level, off, given);
    lemma_block(list, behind);
    let rest = block_text(list) + behind;
    assert(rest[0] == '[');
    lemma_no_space(Seq::empty());
    match t {
        Some(name) => {
            assert(name + block_text(list) + behind =~= name + rest);
            lemma_word_at(name, rest);
        },
        None => {
            assert(Seq::<char>::empty() + block_text(list) + behind =~= rest);
            lemma_no_space(rest);
            lemma_run(Seq::empty(), rest, CharClass::Target);
            assert(Seq::<char>::empty() + rest =~= rest);
        },
    }
}

/// What names neither a target nor a clause and is no bare level is refused, and
/// so is a word behind `=` that is no level; the fault is then behind that word.
pub proof fn law_nonsense_is_refused(t: Seq<char>, word: Seq<char>)
    requires
        is_target(t),
        is_target(word),
        level_of(word) is None,
        !is_off(word),
    ensures
        directive_of(t + seq!['='] + word) == Err::<DirectiveView, Seq<char>>(Seq::empty()),
        directive_of(seq!['='] + word) is Err,
        directive_of(Seq::empty()) is Err,
        directive_of(seq!['='] + "info"@) is Err,
{
    let behind = seq!['='] + word;
    assert(t + seq!['='] + word =~= t + behind);
    lemma_word_at(t, behind);
    lemma_no_space(behind);
    assert(behind.skip(1) =~= word);
    lemma_word_at(word, Seq::empty());
    assert(word + Seq::<char>::empty() =~= word);
    lemma_run(Seq::empty(), behind, CharClass::Target);
    assert(Seq::<char>::empty() + behind =~= behind);
    lemma_no_space(Seq::empty());
    lemma_run(Seq::empty(), Seq::empty(), CharClass::Target);
    assert(Seq::<char>::empty() + Seq::<char>::empty() =~= Seq::<char>::empty());
    let info = seq!['='] + "info"@;
    lemma_words();
    lemma_no_space(info);
    lemma_run(Seq::empty(), info, CharClass::Target);
    assert(Seq::<char>::empty() + info =~= info);
    assert(info.skip(1) =~= "info"@);
    lemma_word_at("info"@, Seq::empty());
    assert("info"@ + Seq::<char>::empty() =~= "info"@);
}

} // verus!
