//! Test selection by `-k` keyword expressions and `-m` mark expressions.
//!
//! The expressions themselves are Python expressions, evaluated by the Python
//! interpreter over names bound to truth values; this module decides which
//! names an expression mentions and what each is bound to.
use vstd::prelude::*;
use crate::text::{chars_of, dedup, lemma_dedup, occurs, occurs_in, lowercase_of, same_text, string_from, to_lowercase};
use crate::types::texts;

verus! {

/// A character that can begin a name in an expression: an ASCII letter or `_`.
pub open spec fn is_word_start(c: char) -> bool {
    ('A' <= c && c <= 'Z') || ('a' <= c && c <= 'z') || c == '_'
}

/// A character that can continue a name: an ASCII letter, digit or `_`.
pub open spec fn is_word_char(c: char) -> bool {
    is_word_start(c) || ('0' <= c && c <= '9')
}

/// The end of the run of name characters that begins at `j`.
pub open spec fn word_end(s: Seq<char>, j: int) -> int
    decreases s.len() - j,
{
    if 0 <= j < s.len() && is_word_char(s[j]) {
        word_end(s, j + 1)
    } else {
        j
    }
}

/// A run of name characters ends no earlier than it begins.
pub proof fn lemma_word_end_bounds(s: Seq<char>, j: int)
    ensures
        word_end(s, j) >= j,
        0 <= j <= s.len() ==> word_end(s, j) <= s.len(),
    decreases s.len() - j,
{
    if 0 <= j < s.len() && is_word_char(s[j]) {
        lemma_word_end_bounds(s, j + 1);
    }
}

/// The names in `s` from position `i` on, in order, as the pattern
/// `[A-Za-z_][A-Za-z0-9_]*` finds them: leftmost, longest, not overlapping.
pub open spec fn terms_from(s: Seq<char>, i: int) -> Seq<Seq<char>>
    decreases s.len() - i,
{
    if i < 0 || i >= s.len() {
        seq![]
    } else if is_word_start(s[i]) {
        let j = word_end(s, i + 1);
        proof {
            lemma_word_end_bounds(s, i + 1);
        }
        seq![s.subrange(i, j)] + terms_from(s, j)
    } else {
        terms_from(s, i + 1)
    }
}

/// Every term is a non-empty run of name characters that begins with a letter
/// or `_`.
pub proof fn lemma_terms_are_names(s: Seq<char>, i: int)
    ensures
        forall|k: int| 0 <= k < terms_from(s, i).len() ==> {
            let t = #[trigger] terms_from(s, i)[k];
            t.len() > 0 && is_word_start(t[0]) && forall|q: int| 0 <= q < t.len() ==> is_word_char(#[trigger] t[q])
        },
    decreases s.len() - i,
{
    if 0 <= i < s.len() {
        if is_word_start(s[i]) {
            let j = word_end(s, i + 1);
            lemma_word_end_bounds(s, i + 1);
            lemma_word_run(s, i + 1);
            lemma_terms_are_names(s, j);
            let t = s.subrange(i, j);
            assert forall|q: int| 0 <= q < t.len() implies is_word_char(#[trigger] t[q]) by {
                if q > 0 {
                    assert(t[q] == s[i + q]);
                }
            }
            let rest = terms_from(s, j);
            assert(terms_from(s, i) == seq![t] + rest);
            assert(t[0] == s[i]);
            assert forall|k: int| 0 <= k < terms_from(s, i).len() implies {
                let t = #[trigger] terms_from(s, i)[k];
                t.len() > 0 && is_word_start(t[0]) && forall|q: int| 0 <= q < t.len() ==> is_word_char(#[trigger] t[q])
            } by {
                if k > 0 {
                    assert(terms_from(s, i)[k] == rest[k - 1]);
                } else {
                    assert(terms_from(s, i)[k] == t);
                }
            }
        } else {
            lemma_terms_are_names(s, i + 1);
            assert(terms_from(s, i) == terms_from(s, i + 1));
        }
    }
}

/// The characters of a run of name characters are name characters.
proof fn lemma_word_run(s: Seq<char>, j: int)
    requires
        0 <= j,
    ensures
        forall|q: int| j <= q < word_end(s, j) ==> is_word_char(#[trigger] s[q]),
    decreases s.len() - j,
{
    if 0 <= j < s.len() && is_word_char(s[j]) {
        lemma_word_run(s, j + 1);
    }
}

/// The words of expression syntax that are never test names.
pub open spec fn is_reserved_word(t: Seq<char>) -> bool {
    t == "and"@ || t == "or"@ || t == "not"@ || t == "True"@ || t == "False"@
}

/// The terms that are not reserved words, in order.
pub open spec fn unreserved(ts: Seq<Seq<char>>) -> Seq<Seq<char>>
    decreases ts.len(),
{
    if ts.len() == 0 {
        seq![]
    } else {
        unreserved(ts.drop_last()) + if is_reserved_word(ts.last()) {
            seq![]
        } else {
            seq![ts.last()]
        }
    }
}

/// The names a keyword expression binds, each once, in order of first mention.
pub open spec fn keyword_names(expr: Seq<char>) -> Seq<Seq<char>> {
    dedup(unreserved(terms_from(expr, 0)))
}

/// The truth value a keyword expression binds `term` to: whether it occurs,
/// ignoring case, in the test's name or in one of its extra keywords.
pub open spec fn term_hit(term: Seq<char>, test_name: Seq<char>, extras: Seq<Seq<char>>) -> bool {
    occurs_in(lowercase_of(term), lowercase_of(test_name)) || exists|k: int|
        0 <= k < extras.len() && occurs_in(lowercase_of(term), lowercase_of(#[trigger] extras[k]))
}

/// A `-k` name is bound to true whenever it occurs, ignoring case, in the
/// test's name or in any one of its extra keywords, wherever that keyword
/// stands among them.
pub proof fn lemma_term_hit_in_any_place(term: Seq<char>, test_name: Seq<char>, extras: Seq<Seq<char>>, k: int)
    requires
        occurs_in(lowercase_of(term), lowercase_of(test_name)) || (0 <= k < extras.len() && occurs_in(
            lowercase_of(term),
            lowercase_of(extras[k]),
        )),
    ensures
        term_hit(term, test_name, extras),
{
}

/// A `-k` name bound to true occurs, ignoring case, in the test's name or in
/// one of its extra keywords.
pub proof fn lemma_term_hit_has_witness(term: Seq<char>, test_name: Seq<char>, extras: Seq<Seq<char>>)
    requires
        term_hit(term, test_name, extras),
    ensures
        occurs_in(lowercase_of(term), lowercase_of(test_name)) || exists|k: int|
            0 <= k < extras.len() && occurs_in(lowercase_of(term), lowercase_of(#[trigger] extras[k])),
{
}

/// More extra keywords never unbind a name: when every keyword of `fewer` is
/// among `more`, a name bound to true under `fewer` is bound to true under
/// `more` (so the order of the keywords does not matter either).
pub proof fn lemma_term_hit_more_keywords(
    term: Seq<char>,
    test_name: Seq<char>,
    fewer: Seq<Seq<char>>,
    more: Seq<Seq<char>>,
)
    requires
        term_hit(term, test_name, fewer),
        forall|k: int| 0 <= k < fewer.len() ==> more.contains(#[trigger] fewer[k]),
    ensures
        term_hit(term, test_name, more),
{
    if !occurs_in(lowercase_of(term), lowercase_of(test_name)) {
        let k = choose|k: int| 0 <= k < fewer.len() && occurs_in(lowercase_of(term), lowercase_of(#[trigger] fewer[k]));
        assert(more.contains(fewer[k]));
        let m = choose|m: int| 0 <= m < more.len() && more[m] == fewer[k];
        assert(occurs_in(lowercase_of(term), lowercase_of(more[m])));
    }
}

/// The names in `expr`, as the pattern `[A-Za-z_][A-Za-z0-9_]*` finds them.
pub fn expression_terms(expr: &str) -> (r: Vec<String>)
    ensures
        texts(r@) == terms_from(expr@, 0),
{
    let s = chars_of(expr);
    let mut out: Vec<String> = Vec::new();
    let mut i: usize = 0;
    assert(texts(out@) + terms_from(s@, 0) =~= terms_from(s@, 0));
    while i < s.len()
        invariant
            i <= s.len(),
            s@ == expr@,
            texts(out@) + terms_from(s@, i as int) == terms_from(s@, 0),
        decreases s.len() - i,
    {
        let c = s[i];
        let start = ('A' <= c && c <= 'Z') || ('a' <= c && c <= 'z') || c == '_';
        if start {
            let mut j: usize = i + 1;
            while j < s.len() && (('A' <= s[j] && s[j] <= 'Z') || ('a' <= s[j] && s[j] <= 'z')
                || s[j] == '_' || ('0' <= s[j] && s[j] <= '9'))
                invariant
                    i < j <= s.len(),
                    word_end(s@, i + 1) == word_end(s@, j as int),
                decreases s.len() - j,
            {
                j += 1;
            }
            let mut word: Vec<char> = Vec::new();
            let mut k: usize = i;
            while k < j
                invariant
                    i <= k <= j <= s.len(),
                    word@ == s@.subrange(i as int, k as int),
                decreases j - k,
            {
                word.push(s[k]);
                assert(s@.subrange(i as int, k + 1) =~= s@.subrange(i as int, k as int).push(s@[k as int]));
                k += 1;
            }
            let ghost before = texts(out@);
            out.push(string_from(&word));
            proof {
                assert(word_end(s@, j as int) == j);
                assert(terms_from(s@, i as int) == seq![s@.subrange(i as int, j as int)] + terms_from(s@, j as int));
                assert(texts(out@) =~= before.push(s@.subrange(i as int, j as int)));
                assert(texts(out@) + terms_from(s@, j as int) =~= before + terms_from(s@, i as int));
            }
            i = j;
        } else {
            i += 1;
        }
    }
    assert(terms_from(s@, i as int) =~= Seq::<Seq<char>>::empty());
    assert(texts(out@) =~= texts(out@) + terms_from(s@, i as int));
    out
}

/// Whether `t` is a reserved word of expression syntax.
fn reserved_word(t: &String) -> (r: bool)
    ensures
        r == is_reserved_word(t@),
{
    let s = t.as_str();
    crate::text::same_text(s, "and") || crate::text::same_text(s, "or") || crate::text::same_text(
        s,
        "not",
    ) || crate::text::same_text(s, "True") || crate::text::same_text(s, "False")
}

/// Whether `term` occurs, ignoring case, in the name or in one of the extras.
pub fn term_matches(term: &String, test_name: &str, extras: &Vec<String>) -> (r: bool)
    ensures
        r == term_hit(term@, test_name@, texts(extras@)),
{
    let t = chars_of(to_lowercase(term.as_str()).as_str());
    let n = chars_of(to_lowercase(test_name).as_str());
    if occurs(&t, &n) {
        return true;
    }
    let mut k: usize = 0;
    while k < extras.len()
        invariant
            k <= extras.len(),
            t@ == lowercase_of(term@),
            !occurs_in(lowercase_of(term@), lowercase_of(test_name@)),
            forall|q: int| 0 <= q < k ==> !occurs_in(lowercase_of(term@), lowercase_of(#[trigger] texts(extras@)[q])),
        decreases extras.len() - k,
    {
        let e = chars_of(to_lowercase(extras[k].as_str()).as_str());
        if occurs(&t, &e) {
            assert(texts(extras@)[k as int] == extras@[k as int]@);
            return true;
        }
        k += 1;
    }
    false
}

/// The names an expression binds, each once, in order of first mention: every
/// name it holds other than `and`, `or`, `not`, `True`, `False`.
pub fn expression_names(expr: &str) -> (r: Vec<String>)
    ensures
        texts(r@) == keyword_names(expr@),
{
    let terms = expression_terms(expr);
    let ghost ts = texts(terms@);
    let mut names: Vec<String> = Vec::new();
    let mut i: usize = 0;
    assert(ts.take(0) =~= Seq::<Seq<char>>::empty());
    assert(unreserved(ts.take(0)) =~= Seq::<Seq<char>>::empty());
    while i < terms.len()
        invariant
            i <= terms.len(),
            ts == texts(terms@),
            texts(names@) == dedup(unreserved(ts.take(i as int))),
        decreases terms.len() - i,
    {
        proof {
            assert(ts.take(i + 1).drop_last() =~= ts.take(i as int));
            assert(ts.take(i + 1).last() == terms@[i as int]@);
        }
        if !reserved_word(&terms[i]) {
            let ghost u = unreserved(ts.take(i as int));
            proof {
                assert(unreserved(ts.take(i + 1)) =~= u.push(terms@[i as int]@));
                assert(u.push(terms@[i as int]@).drop_last() =~= u);
            }
            if !crate::text::contains_string(&names, &terms[i]) {
                names.push(terms[i].clone());
                assert(texts(names@) =~= dedup(u).push(terms@[i as int]@));
            }
        } else {
            assert(unreserved(ts.take(i + 1)) =~= unreserved(ts.take(i as int)));
        }
        i += 1;
    }
    assert(ts.take(terms.len() as int) =~= ts);
    names
}

/// The names a keyword expression binds, each once, and the truth value of
/// each for the given test.
pub fn keyword_context(expr: &str, test_name: &str, extras: &Vec<String>) -> (r: (
    Vec<String>,
    Vec<bool>,
))
    ensures
        texts(r.0@) == keyword_names(expr@),
        r.1.len() == r.0.len(),
        forall|i: int| 0 <= i < r.1.len() ==> r.1@[i] == term_hit(#[trigger] r.0@[i]@, test_name@, texts(extras@)),
{
    let names = expression_names(expr);
    let mut values: Vec<bool> = Vec::new();
    let mut i: usize = 0;
    while i < names.len()
        invariant
            i <= names.len(),
            values.len() == i,
            forall|q: int| 0 <= q < i ==> values@[q] == term_hit(#[trigger] names@[q]@, test_name@, texts(extras@)),
        decreases names.len() - i,
    {
        values.push(term_matches(&names[i], test_name, extras));
        i += 1;
    }
    (names, values)
}

/// The names a mark expression binds, each once, and the truth value of each
/// for a test with the given marks: whether the test carries that mark.
pub fn mark_context(expr: &str, marks: &Vec<String>) -> (r: (Vec<String>, Vec<bool>))
    ensures
        texts(r.0@) == keyword_names(expr@),
        r.1.len() == r.0.len(),
        forall|i: int| 0 <= i < r.1.len() ==> r.1@[i] == texts(marks@).contains(#[trigger] r.0@[i]@),
{
    let names = expression_names(expr);
    let mut values: Vec<bool> = Vec::new();
    let mut i: usize = 0;
    while i < names.len()
        invariant
            i <= names.len(),
            values.len() == i,
            forall|q: int| 0 <= q < i ==> values@[q] == texts(marks@).contains(#[trigger] names@[q]@),
        decreases names.len() - i,
    {
        values.push(crate::text::contains_string(marks, &names[i]));
        i += 1;
    }
    (names, values)
}

// ---------------------------------------------------------------------------
// The grammar of selection expressions: names, decimal numerals, `and`, `or`,
// `not`, `True`, `False`, `None` and parentheses, separated by white space.

/// White space between tokens: a space, a tab, a form feed or a line break.
pub open spec fn is_blank(c: char) -> bool {
    c == ' ' || c == '\t' || c == '\u{c}' || c == '\n' || c == '\r'
}

/// A decimal digit.
pub open spec fn is_digit(c: char) -> bool {
    '0' <= c && c <= '9'
}

/// The end of the run of digits that begins at `j`.
pub open spec fn digit_end(s: Seq<char>, j: int) -> int
    decreases s.len() - j,
{
    if 0 <= j < s.len() && is_digit(s[j]) {
        digit_end(s, j + 1)
    } else {
        j
    }
}

/// A run of digits ends no earlier than it begins.
pub proof fn lemma_digit_end_bounds(s: Seq<char>, j: int)
    ensures
        digit_end(s, j) >= j,
        0 <= j <= s.len() ==> digit_end(s, j) <= s.len(),
    decreases s.len() - j,
{
    if 0 <= j < s.len() && is_digit(s[j]) {
        lemma_digit_end_bounds(s, j + 1);
    }
}

/// The tokens of `s` from position `i` on: names, as the pattern
/// `[A-Za-z_][A-Za-z0-9_]*` finds them, runs of digits that no name character
/// follows, and single parentheses; white space separates them.  `None` when
/// `s` holds any other character.
pub open spec fn tokens_from(s: Seq<char>, i: int) -> Option<Seq<Seq<char>>>
    decreases s.len() - i,
{
    if i < 0 || i >= s.len() {
        Some(seq![])
    } else if is_blank(s[i]) {
        tokens_from(s, i + 1)
    } else if s[i] == '(' || s[i] == ')' {
        match tokens_from(s, i + 1) {
            Some(rest) => Some(seq![seq![s[i]]] + rest),
            None => None,
        }
    } else if is_word_start(s[i]) {
        let j = word_end(s, i + 1);
        proof {
            lemma_word_end_bounds(s, i + 1);
        }
        match tokens_from(s, j) {
            Some(rest) => Some(seq![s.subrange(i, j)] + rest),
            None => None,
        }
    } else if is_digit(s[i]) {
        let j = digit_end(s, i + 1);
        proof {
            lemma_digit_end_bounds(s, i + 1);
        }
        if j < s.len() && is_word_char(s[j]) {
            None
        } else {
            match tokens_from(s, j) {
                Some(rest) => Some(seq![s.subrange(i, j)] + rest),
                None => None,
            }
        }
    } else {
        None
    }
}

/// How many more `(` than `)` tokens stand in `ts[lo..k]`.
pub open spec fn depth(ts: Seq<Seq<char>>, lo: int, k: int) -> int
    decreases k - lo,
{
    if k <= lo {
        0
    } else {
        depth(ts, lo, k - 1) + if ts[k - 1] == seq!['('] {
            1int
        } else if ts[k - 1] == seq![')'] {
            -1int
        } else {
            0int
        }
    }
}

/// The last position in `ts[lo..k]` that holds the word `w` outside every
/// parenthesis, or `lo - 1` where there is none.
pub open spec fn last_top(ts: Seq<Seq<char>>, lo: int, k: int, w: Seq<char>) -> int
    decreases k - lo,
{
    if k <= lo {
        lo - 1
    } else if ts[k - 1] == w && depth(ts, lo, k - 1) == 0 {
        k - 1
    } else {
        last_top(ts, lo, k - 1, w)
    }
}

/// The parenthesis that opens `ts[lo..hi]` closes at its end and not before.
pub open spec fn encloses(ts: Seq<Seq<char>>, lo: int, hi: int) -> bool {
    forall|k: int| lo < k < hi ==> #[trigger] depth(ts, lo, k) >= 1
}

/// The words Python reserves as keywords (`keyword.kwlist`).
pub open spec fn is_python_keyword(t: Seq<char>) -> bool {
    t == "False"@ || t == "None"@ || t == "True"@ || t == "and"@ || t == "as"@ || t == "assert"@
        || t == "async"@ || t == "await"@ || t == "break"@ || t == "class"@ || t == "continue"@
        || t == "def"@ || t == "del"@ || t == "elif"@ || t == "else"@ || t == "except"@
        || t == "finally"@ || t == "for"@ || t == "from"@ || t == "global"@ || t == "if"@
        || t == "import"@ || t == "in"@ || t == "is"@ || t == "lambda"@ || t == "nonlocal"@
        || t == "not"@ || t == "or"@ || t == "pass"@ || t == "raise"@ || t == "return"@
        || t == "try"@ || t == "while"@ || t == "with"@ || t == "yield"@
}

/// A decimal numeral: a non-empty run of digits.
pub open spec fn is_numeral(t: Seq<char>) -> bool {
    t.len() > 0 && forall|q: int| 0 <= q < t.len() ==> is_digit(#[trigger] t[q])
}

/// A token that stands alone as an operand: `True`, `False`, `None`, a
/// numeral, or a name that is no keyword (nor `__debug__`, whose value Python
/// fixes).
pub open spec fn is_operand(t: Seq<char>) -> bool {
    t == "True"@ || t == "False"@ || t == "None"@ || is_numeral(t) || (t.len() > 0 && is_word_start(t[0])
        && !is_python_keyword(t) && t != "__debug__"@)
}

/// The truth value of an operand token, each name standing for `env` of it: a
/// numeral is true when its value is not zero, `None` is false.
pub open spec fn operand_truth(t: Seq<char>, env: spec_fn(Seq<char>) -> bool) -> bool {
    if t == "True"@ {
        true
    } else if t == "False"@ || t == "None"@ {
        false
    } else if is_numeral(t) {
        exists|q: int| 0 <= q < t.len() && t[q] != '0'
    } else {
        env(t)
    }
}

/// `ts[lo..hi]` is an expression of the grammar at `level`: 3 for a
/// disjunction, 2 for a conjunction, 1 for a negation, 0 for an operand or a
/// parenthesised expression.
pub open spec fn well_formed(ts: Seq<Seq<char>>, lo: int, hi: int, level: nat) -> bool
    decreases hi - lo, level,
{
    if lo < 0 || lo >= hi || hi > ts.len() {
        false
    } else if level >= 3 {
        let o = last_top(ts, lo, hi, "or"@);
        if lo <= o < hi {
            well_formed(ts, lo, o, 3) && well_formed(ts, o + 1, hi, 2)
        } else {
            well_formed(ts, lo, hi, 2)
        }
    } else if level == 2 {
        let a = last_top(ts, lo, hi, "and"@);
        if lo <= a < hi {
            well_formed(ts, lo, a, 2) && well_formed(ts, a + 1, hi, 1)
        } else {
            well_formed(ts, lo, hi, 1)
        }
    } else if level == 1 {
        if ts[lo] == "not"@ {
            well_formed(ts, lo + 1, hi, 1)
        } else {
            well_formed(ts, lo, hi, 0)
        }
    } else if hi == lo + 1 {
        is_operand(ts[lo])
    } else {
        ts[lo] == seq!['('] && ts[hi - 1] == seq![')'] && encloses(ts, lo, hi) && well_formed(
            ts,
            lo + 1,
            hi - 1,
            3,
        )
    }
}

/// The truth value of `ts[lo..hi]` at `level` of the grammar, with each name
/// `n` standing for `env(n)`: `or`, `and` and `not` as in Boolean logic, `not`
/// binding tighter than `and`, and `and` tighter than `or`.
pub open spec fn truth(ts: Seq<Seq<char>>, lo: int, hi: int, level: nat, env: spec_fn(Seq<char>) -> bool) -> bool
    decreases hi - lo, level,
{
    if lo < 0 || lo >= hi || hi > ts.len() {
        false
    } else if level >= 3 {
        let o = last_top(ts, lo, hi, "or"@);
        if lo <= o < hi {
            truth(ts, lo, o, 3, env) || truth(ts, o + 1, hi, 2, env)
        } else {
            truth(ts, lo, hi, 2, env)
        }
    } else if level == 2 {
        let a = last_top(ts, lo, hi, "and"@);
        if lo <= a < hi {
            truth(ts, lo, a, 2, env) && truth(ts, a + 1, hi, 1, env)
        } else {
            truth(ts, lo, hi, 1, env)
        }
    } else if level == 1 {
        if ts[lo] == "not"@ {
            !truth(ts, lo + 1, hi, 1, env)
        } else {
            truth(ts, lo, hi, 0, env)
        }
    } else if hi == lo + 1 {
        operand_truth(ts[lo], env)
    } else {
        truth(ts, lo + 1, hi - 1, 3, env)
    }
}

/// A name operand: a name that is no keyword (and so none of `True`,
/// `False`, `None`, `and`, `or`, `not`).
pub open spec fn is_name_operand(t: Seq<char>) -> bool {
    t.len() > 0 && is_word_start(t[0]) && !is_python_keyword(t) && t != "__debug__"@
}

/// A name operand is none of the operator tokens.
proof fn lemma_name_operand_not_operator(t: Seq<char>)
    requires
        is_name_operand(t),
    ensures
        t != "and"@ && t != "or"@ && t != "not"@ && t != seq!['('] && t != seq![')'],
        t != "True"@ && t != "False"@ && t != "None"@ && !is_numeral(t),
{
    if t == seq!['('] || t == seq![')'] {
        assert(t[0] == '(' || t[0] == ')');
    }
    if is_numeral(t) {
        assert(is_digit(t[0]));
    }
}

/// The grammar is Boolean logic: `x and y`, `x or y` and `not x` over names
/// are conjunction, disjunction and negation of what the names stand for;
/// `and` binds tighter than `or`, `not` tighter than `and`, and parentheses
/// group.
pub proof fn lemma_truth_is_boolean_logic(x: Seq<char>, y: Seq<char>, env: spec_fn(Seq<char>) -> bool)
    requires
        is_name_operand(x),
        is_name_operand(y),
    ensures
        truth(seq![x, "and"@, y], 0, 3, 3, env) == (env(x) && env(y)),
        truth(seq![x, "or"@, y], 0, 3, 3, env) == (env(x) || env(y)),
        truth(seq!["not"@, x], 0, 2, 3, env) == !env(x),
        truth(seq![x, "or"@, y, "and"@, x], 0, 5, 3, env) == (env(x) || (env(y) && env(x))),
        truth(seq!["not"@, x, "and"@, y], 0, 4, 3, env) == (!env(x) && env(y)),
        truth(seq![seq!['('], x, "or"@, y, seq![')'], "and"@, x], 0, 7, 3, env) == ((env(x) || env(y)) && env(x)),
{
    lemma_name_operand_not_operator(x);
    lemma_name_operand_not_operator(y);
    reveal_with_fuel(last_top, 8);
    reveal_with_fuel(depth, 8);
    reveal_with_fuel(truth, 6);
    reveal_strlit("and");
    reveal_strlit("or");
    reveal_strlit("not");
    assert("and"@ != "or"@) by {
        assert("and"@.len() != "or"@.len());
    }
    assert("not"@ != "or"@ && "not"@ != "and"@) by {
        assert("not"@[0] != "or"@[0]);
        assert("not"@[0] != "and"@[0]);
    }
    assert("and"@.len() == 3 && "or"@.len() == 2 && "not"@.len() == 3);
    assert(seq!['('].len() == 1 && seq![')'].len() == 1);
    assert(seq![')'] != seq!['(']) by {
        assert(seq![')'][0] != seq!['('][0]);
    }
    assert("and"@ != seq!['('] && "and"@ != seq![')'] && "or"@ != seq!['('] && "or"@ != seq![')']);
    assert("not"@ != seq!['('] && "not"@ != seq![')']);
    let t1 = seq![x, "and"@, y];
    assert(last_top(t1, 0, 3, "or"@) == -1);
    assert(last_top(t1, 0, 3, "and"@) == 1);
    assert(truth(t1, 0, 1, 1, env) == env(x));
    assert(truth(t1, 2, 3, 1, env) == env(y));
    let t2 = seq![x, "or"@, y];
    assert(last_top(t2, 0, 3, "or"@) == 1);
    assert(last_top(t2, 0, 1, "and"@) == -1);
    assert(last_top(t2, 2, 3, "and"@) == 1);
    assert(truth(t2, 0, 1, 3, env) == env(x));
    assert(truth(t2, 2, 3, 2, env) == env(y));
    let t3 = seq!["not"@, x];
    assert(last_top(t3, 0, 2, "or"@) == -1);
    assert(last_top(t3, 0, 2, "and"@) == -1);
    assert(truth(t3, 1, 2, 1, env) == env(x));
    let t4 = seq![x, "or"@, y, "and"@, x];
    assert(last_top(t4, 0, 5, "or"@) == 1);
    assert(truth(t4, 0, 1, 3, env) == env(x));
    assert(last_top(t4, 2, 5, "and"@) == 3);
    assert(truth(t4, 2, 3, 2, env) == env(y));
    assert(truth(t4, 4, 5, 1, env) == env(x));
    assert(truth(t4, 2, 5, 2, env) == (env(y) && env(x)));
    let t5 = seq!["not"@, x, "and"@, y];
    assert(last_top(t5, 0, 4, "or"@) == -1);
    assert(last_top(t5, 0, 4, "and"@) == 2);
    assert(last_top(t5, 0, 2, "and"@) == -1);
    assert(truth(t5, 1, 2, 1, env) == env(x));
    assert(truth(t5, 0, 2, 2, env) == !env(x));
    assert(truth(t5, 3, 4, 1, env) == env(y));
    let t6 = seq![seq!['('], x, "or"@, y, seq![')'], "and"@, x];
    assert(depth(t6, 0, 1) == 1);
    assert(depth(t6, 0, 2) == 1);
    assert(depth(t6, 0, 3) == 1);
    assert(depth(t6, 0, 4) == 1);
    assert(depth(t6, 0, 5) == 0);
    assert(depth(t6, 0, 6) == 0);
    assert(last_top(t6, 0, 7, "or"@) == -1);
    assert(last_top(t6, 0, 7, "and"@) == 5);
    assert(last_top(t6, 0, 5, "and"@) == -1);
    assert(last_top(t6, 1, 4, "or"@) == 2);
    assert(truth(t6, 1, 2, 3, env) == env(x));
    assert(truth(t6, 3, 4, 2, env) == env(y));
    assert(truth(t6, 1, 4, 3, env) == (env(x) || env(y)));
    assert(truth(t6, 0, 5, 0, env) == (env(x) || env(y)));
    assert(truth(t6, 0, 5, 2, env) == (env(x) || env(y)));
    assert(truth(t6, 6, 7, 1, env) == env(x));
}

/// The expression is written in the grammar.
pub open spec fn admitted(expr: Seq<char>) -> bool {
    match tokens_from(expr, 0) {
        Some(ts) => well_formed(ts, 0, ts.len() as int, 3),
        None => false,
    }
}

/// The truth value of an expression of the grammar, each name standing for
/// `env` of it.
pub open spec fn expression_truth(expr: Seq<char>, env: spec_fn(Seq<char>) -> bool) -> bool {
    match tokens_from(expr, 0) {
        Some(ts) => truth(ts, 0, ts.len() as int, 3, env),
        None => false,
    }
}

/// Every pair `names[i]`, `values[i]` is a binding of `env`.
pub open spec fn binds(env: spec_fn(Seq<char>) -> bool, names: Seq<Seq<char>>, values: Seq<bool>) -> bool {
    forall|i: int| 0 <= i < names.len() ==> env(#[trigger] names[i]) == values[i]
}

/// Every name of the expression, other than `and`, `or`, `not`, `True` and
/// `False`, is among `names`.
pub open spec fn binds_all_names(expr: Seq<char>, names: Seq<Seq<char>>) -> bool {
    forall|k: int|
        0 <= k < terms_from(expr, 0).len() && !is_reserved_word(#[trigger] terms_from(expr, 0)[k])
            ==> names.contains(terms_from(expr, 0)[k])
}

/// `rest` with `head` in front, if there is a `rest`.
pub open spec fn prefixed(head: Seq<Seq<char>>, rest: Option<Seq<Seq<char>>>) -> Option<Seq<Seq<char>>> {
    match rest {
        Some(r) => Some(head + r),
        None => None,
    }
}

/// The tokens of `expr`, or `None` when it holds a character that is neither a
/// blank, a parenthesis nor part of a name.
pub fn tokenize(expr: &str) -> (r: Option<Vec<String>>)
    ensures
        match r {
            Some(v) => tokens_from(expr@, 0) == Some(texts(v@)),
            None => tokens_from(expr@, 0) is None,
        },
{
    let s = chars_of(expr);
    let mut out: Vec<String> = Vec::new();
    let mut i: usize = 0;
    proof {
        match tokens_from(s@, 0) {
            Some(r) => { assert(texts(out@) + r =~= r); },
            None => {},
        }
    }
    while i < s.len()
        invariant
            i <= s.len(),
            s@ == expr@,
            tokens_from(s@, 0) == prefixed(texts(out@), tokens_from(s@, i as int)),
        decreases s.len() - i,
    {
        let c = s[i];
        if c == ' ' || c == '\t' || c == '\u{c}' || c == '\n' || c == '\r' {
            i += 1;
        } else if c == '(' || c == ')' {
            let ghost before = texts(out@);
            let one = vec![c];
            let tok = string_from(&one);
            assert(one@ =~= seq![c]);
            assert(tok@ == seq![c]);
            out.push(tok);
            proof {
                assert(texts(out@) =~= before + seq![seq![c]]);
                match tokens_from(s@, i + 1) {
                    Some(r) => { assert(before + (seq![seq![c]] + r) =~= (before + seq![seq![c]]) + r); },
                    None => {},
                }
            }
            i += 1;
        } else if ('A' <= c && c <= 'Z') || ('a' <= c && c <= 'z') || c == '_' {
            let mut j: usize = i + 1;
            while j < s.len() && (('A' <= s[j] && s[j] <= 'Z') || ('a' <= s[j] && s[j] <= 'z')
                || s[j] == '_' || ('0' <= s[j] && s[j] <= '9'))
                invariant
                    i < j <= s.len(),
                    word_end(s@, i + 1) == word_end(s@, j as int),
                decreases s.len() - j,
            {
                j += 1;
            }
            let mut word: Vec<char> = Vec::new();
            let mut k: usize = i;
            while k < j
                invariant
                    i <= k <= j <= s.len(),
                    word@ == s@.subrange(i as int, k as int),
                decreases j - k,
            {
                word.push(s[k]);
                assert(s@.subrange(i as int, k + 1) =~= s@.subrange(i as int, k as int).push(s@[k as int]));
                k += 1;
            }
            let ghost before = texts(out@);
            out.push(string_from(&word));
            proof {
                assert(word_end(s@, j as int) == j);
                let w = s@.subrange(i as int, j as int);
                assert(texts(out@) =~= before + seq![w]);
                match tokens_from(s@, j as int) {
                    Some(r) => { assert(before + (seq![w] + r) =~= (before + seq![w]) + r); },
                    None => {},
                }
            }
            i = j;
        } else if '0' <= c && c <= '9' {
            let mut j: usize = i + 1;
            while j < s.len() && '0' <= s[j] && s[j] <= '9'
                invariant
                    i < j <= s.len(),
                    digit_end(s@, i + 1) == digit_end(s@, j as int),
                decreases s.len() - j,
            {
                j += 1;
            }
            proof {
                assert(digit_end(s@, j as int) == j);
            }
            if j < s.len() && (('A' <= s[j] && s[j] <= 'Z') || ('a' <= s[j] && s[j] <= 'z') || s[j] == '_'
                || ('0' <= s[j] && s[j] <= '9')) {
                return None;
            }
            let mut word: Vec<char> = Vec::new();
            let mut k: usize = i;
            while k < j
                invariant
                    i <= k <= j <= s.len(),
                    word@ == s@.subrange(i as int, k as int),
                decreases j - k,
            {
                word.push(s[k]);
                assert(s@.subrange(i as int, k + 1) =~= s@.subrange(i as int, k as int).push(s@[k as int]));
                k += 1;
            }
            let ghost before = texts(out@);
            out.push(string_from(&word));
            proof {
                let w = s@.subrange(i as int, j as int);
                assert(texts(out@) =~= before + seq![w]);
                match tokens_from(s@, j as int) {
                    Some(r) => { assert(before + (seq![w] + r) =~= (before + seq![w]) + r); },
                    None => {},
                }
            }
            i = j;
        } else {
            return None;
        }
    }
    proof {
        assert(texts(out@) + seq![] =~= texts(out@));
    }
    Some(out)
}

/// Whether `t` is the one-character text `c`.
fn is_char_token(t: &String, c: char) -> (r: bool)
    ensures
        r == (t@ == seq![c]),
{
    let cs = chars_of(t.as_str());
    let r = cs.len() == 1 && cs[0] == c;
    proof {
        if r {
            assert(cs@ =~= seq![c]);
        }
    }
    r
}

/// The last position in `ts[lo..hi]` that holds `w` outside every
/// parenthesis, if there is one.
fn find_top(ts: &Vec<String>, lo: usize, hi: usize, w: &str) -> (r: Option<usize>)
    requires
        lo < hi <= ts.len(),
    ensures
        match r {
            Some(o) => lo <= o < hi && o as int == last_top(texts(ts@), lo as int, hi as int, w@),
            None => last_top(texts(ts@), lo as int, hi as int, w@) == lo - 1,
        },
{
    let ghost t = texts(ts@);
    let mut opens: usize = 0;
    let mut closes: usize = 0;
    let mut last: Option<usize> = None;
    let mut k: usize = lo;
    while k < hi
        invariant
            lo <= k <= hi <= ts.len(),
            t == texts(ts@),
            opens <= k - lo,
            closes <= k - lo,
            opens - closes == depth(t, lo as int, k as int),
            match last {
                Some(o) => lo <= o < k && o as int == last_top(t, lo as int, k as int, w@),
                None => last_top(t, lo as int, k as int, w@) == lo - 1,
            },
        decreases hi - k,
    {
        assert(t[k as int] == ts@[k as int]@);
        if opens == closes && same_text(ts[k].as_str(), w) {
            last = Some(k);
        }
        if is_char_token(&ts[k], '(') {
            opens += 1;
        } else if is_char_token(&ts[k], ')') {
            closes += 1;
        }
        k += 1;
    }
    last
}

/// Whether the parenthesis that opens `ts[lo..hi]` closes at its end and not
/// before.
fn enclosed(ts: &Vec<String>, lo: usize, hi: usize) -> (r: bool)
    requires
        lo < hi <= ts.len(),
    ensures
        r == encloses(texts(ts@), lo as int, hi as int),
{
    let ghost t = texts(ts@);
    let mut opens: usize = 0;
    let mut closes: usize = 0;
    let mut k: usize = lo;
    while k + 1 < hi
        invariant
            lo <= k < hi <= ts.len(),
            t == texts(ts@),
            opens <= k - lo,
            closes <= k - lo,
            opens - closes == depth(t, lo as int, k as int),
            forall|m: int| lo < m <= k ==> #[trigger] depth(t, lo as int, m) >= 1,
        decreases hi - k,
    {
        assert(t[k as int] == ts@[k as int]@);
        if is_char_token(&ts[k], '(') {
            opens += 1;
        } else if is_char_token(&ts[k], ')') {
            closes += 1;
        }
        if opens <= closes {
            assert(depth(t, lo as int, k + 1) < 1);
            return false;
        }
        k += 1;
    }
    true
}

/// Whether `t` is one of Python's keywords.
fn python_keyword(t: &str) -> (r: bool)
    ensures
        r == is_python_keyword(t@),
{
    same_text(t, "False") || same_text(t, "None") || same_text(t, "True") || same_text(t, "and")
        || same_text(t, "as") || same_text(t, "assert") || same_text(t, "async") || same_text(t, "await")
        || same_text(t, "break") || same_text(t, "class") || same_text(t, "continue") || same_text(t, "def")
        || same_text(t, "del") || same_text(t, "elif") || same_text(t, "else") || same_text(t, "except")
        || same_text(t, "finally") || same_text(t, "for") || same_text(t, "from") || same_text(t, "global")
        || same_text(t, "if") || same_text(t, "import") || same_text(t, "in") || same_text(t, "is")
        || same_text(t, "lambda") || same_text(t, "nonlocal") || same_text(t, "not") || same_text(t, "or")
        || same_text(t, "pass") || same_text(t, "raise") || same_text(t, "return") || same_text(t, "try")
        || same_text(t, "while") || same_text(t, "with") || same_text(t, "yield")
}

/// Whether the characters form a decimal numeral.
fn numeral(cs: &Vec<char>) -> (r: bool)
    ensures
        r == is_numeral(cs@),
{
    if cs.len() == 0 {
        return false;
    }
    let mut i: usize = 0;
    while i < cs.len()
        invariant
            i <= cs.len(),
            forall|q: int| 0 <= q < i ==> is_digit(#[trigger] cs@[q]),
        decreases cs.len() - i,
    {
        if !('0' <= cs[i] && cs[i] <= '9') {
            return false;
        }
        i += 1;
    }
    true
}

/// Whether `t` stands alone as an operand.
fn operand(t: &String) -> (r: bool)
    ensures
        r == is_operand(t@),
{
    let s = t.as_str();
    if same_text(s, "True") || same_text(s, "False") || same_text(s, "None") {
        return true;
    }
    let cs = chars_of(s);
    if cs.len() == 0 {
        return false;
    }
    if numeral(&cs) {
        return true;
    }
    let c = cs[0];
    if !(('A' <= c && c <= 'Z') || ('a' <= c && c <= 'z') || c == '_') {
        return false;
    }
    !python_keyword(s) && !same_text(s, "__debug__")
}

/// Whether `ts[lo..hi]` is an expression of the grammar at `level`.
fn check_form(ts: &Vec<String>, lo: usize, hi: usize, level: usize) -> (r: bool)
    requires
        hi <= ts.len(),
    ensures
        r == well_formed(texts(ts@), lo as int, hi as int, level as nat),
    decreases hi - lo, level,
{
    if lo >= hi {
        return false;
    }
    let ghost t = texts(ts@);
    assert(t[lo as int] == ts@[lo as int]@);
    assert(t[hi - 1] == ts@[hi - 1]@);
    if level >= 3 {
        match find_top(ts, lo, hi, "or") {
            Some(o) => check_form(ts, lo, o, 3) && check_form(ts, o + 1, hi, 2),
            None => check_form(ts, lo, hi, 2),
        }
    } else if level == 2 {
        match find_top(ts, lo, hi, "and") {
            Some(a) => check_form(ts, lo, a, 2) && check_form(ts, a + 1, hi, 1),
            None => check_form(ts, lo, hi, 1),
        }
    } else if level == 1 {
        if same_text(ts[lo].as_str(), "not") {
            check_form(ts, lo + 1, hi, 1)
        } else {
            check_form(ts, lo, hi, 0)
        }
    } else if hi == lo + 1 {
        operand(&ts[lo])
    } else {
        is_char_token(&ts[lo], '(') && is_char_token(&ts[hi - 1], ')') && enclosed(ts, lo, hi)
            && check_form(ts, lo + 1, hi - 1, 3)
    }
}

/// Whether the expression is written in the grammar.
pub fn is_admitted(expr: &str) -> (r: bool)
    ensures
        r == admitted(expr@),
{
    match tokenize(expr) {
        Some(ts) => {
            let n = ts.len();
            check_form(&ts, 0, n, 3)
        },
        None => false,
    }
}

/// An expression of the grammar that Python evaluates on any machine: it has
/// no line break or form feed, at most 100 tokens (so far fewer nested
/// parentheses and `not`s than the parser's and the compiler's limits), and
/// its numerals have no leading zero and at most 18 digits.
pub open spec fn plainly_evaluable(expr: Seq<char>) -> bool {
    &&& forall|i: int| 0 <= i < expr.len() ==> #[trigger] expr[i] != '\n' && expr[i] != '\r' && expr[i] != '\u{c}'
    &&& match tokens_from(expr, 0) {
        Some(ts) => ts.len() <= 100 && forall|k: int|
            0 <= k < ts.len() && is_numeral(#[trigger] ts[k]) ==> ts[k].len() <= 18 && (ts[k][0] != '0' || ts[k].len()
                == 1),
        None => false,
    }
}

/// Python's `bool(eval(expr, {"__builtins__": None}, names))`, called through
/// `pyo3`, with `names[i]` bound to `values[i]`; `None` when evaluation or the
/// truth test raised.  Only expressions of the grammar above, with every name
/// bound once, are handed to it.  Python's `or`, `and`, `not` and parentheses
/// over `True`, `False`, `None`, numerals and names bound to `bool` values
/// compute Boolean logic with the precedence `not`, `and`, `or`, so the
/// contract claims that a value, where Python gives one, is that truth value,
/// for any reading of the names that agrees with the bindings.  It also claims
/// that Python gives a value for a plainly evaluable expression.  Otherwise
/// whether it gives one is left unsaid: a line break outside parentheses is a
/// syntax error, a numeral with a leading zero too, and deep nesting exceeds
/// the parser's or the compiler's limits, which depend on the interpreter and
/// the machine.
#[verifier::external_body]
fn python_truth(expr: &str, names: &Vec<String>, values: &Vec<bool>) -> (r: Option<bool>)
    requires
        admitted(expr@),
        names.len() == values.len(),
        texts(names@).no_duplicates(),
        binds_all_names(expr@, texts(names@)),
    ensures
        forall|env: spec_fn(Seq<char>) -> bool|
            #[trigger] binds(env, texts(names@), values@) ==> (r matches Some(b) ==> b == expression_truth(
                expr@,
                env,
            )),
        plainly_evaluable(expr@) ==> r is Some,
{
    pyo3::Python::with_gil(|py| {
        let globals = pyo3::types::PyDict::new(py);
        let locals = pyo3::types::PyDict::new(py);
        globals.set_item("__builtins__", py.None()).ok()?;
        for (name, value) in names.iter().zip(values.iter()) {
            locals.set_item(name, *value).ok()?;
        }
        let eval = py.import("builtins").ok()?.getattr("eval").ok()?;
        eval.call1((expr, globals, locals)).and_then(|o| o.is_true()).ok()
    })
}

/// The selection verdict of an expression, given what evaluating it gave: an
/// empty expression selects everything; otherwise the evaluation must have
/// succeeded with a true value.
pub fn expression_verdict(expr: &str, outcome: Option<bool>) -> (r: bool)
    ensures
        r == (expr@.len() == 0 || outcome == Some(true)),
{
    if expr.is_empty() {
        return true;
    }
    match outcome {
        Some(b) => b,
        None => false,
    }
}

/// Each name stands for whether it occurs, ignoring case, in the test's name or
/// in one of its extra keywords.
pub open spec fn keyword_env(test_name: Seq<char>, extras: Seq<Seq<char>>) -> spec_fn(Seq<char>) -> bool {
    |n: Seq<char>| term_hit(n, test_name, extras)
}

/// Each name stands for whether the test carries that mark.
pub open spec fn mark_env(marks: Seq<Seq<char>>) -> spec_fn(Seq<char>) -> bool {
    |n: Seq<char>| marks.contains(n)
}

/// A `-k` expression selects the test: it is empty, or it is written in the
/// grammar and true when each name stands for whether it occurs, ignoring case,
/// in the test's name or extra keywords.
pub open spec fn keyword_selects(expr: Seq<char>, test_name: Seq<char>, extras: Seq<Seq<char>>) -> bool {
    expr.len() == 0 || (admitted(expr) && expression_truth(expr, keyword_env(test_name, extras)))
}

/// A `-m` expression selects a test with the given marks: it is empty, or it is
/// written in the grammar and true when each name stands for whether the test
/// carries that mark.
pub open spec fn mark_selects(expr: Seq<char>, marks: Seq<Seq<char>>) -> bool {
    expr.len() == 0 || (admitted(expr) && expression_truth(expr, mark_env(marks)))
}

/// Every name the terms hold, other than a reserved word, is among the names
/// a keyword expression binds.
proof fn lemma_unreserved_kept(ts: Seq<Seq<char>>, k: int)
    requires
        0 <= k < ts.len(),
        !is_reserved_word(ts[k]),
    ensures
        unreserved(ts).contains(ts[k]),
    decreases ts.len(),
{
    let p = ts.drop_last();
    if k < ts.len() - 1 {
        assert(p[k] == ts[k]);
        lemma_unreserved_kept(p, k);
        let m = choose|m: int| 0 <= m < unreserved(p).len() && unreserved(p)[m] == ts[k];
        assert(unreserved(ts)[m] == ts[k]);
    } else {
        let u = unreserved(p);
        assert(unreserved(ts)[u.len() as int] == ts[k]);
    }
}

/// The names a keyword expression binds are each there once, and every name of
/// the expression other than a reserved word is among them.
proof fn lemma_names_cover(expr: Seq<char>)
    ensures
        keyword_names(expr).no_duplicates(),
        binds_all_names(expr, keyword_names(expr)),
{
    let ts = terms_from(expr, 0);
    lemma_dedup(unreserved(ts));
    assert forall|k: int| 0 <= k < ts.len() && !is_reserved_word(#[trigger] ts[k]) implies keyword_names(
        expr,
    ).contains(ts[k]) by {
        lemma_unreserved_kept(ts, k);
    }
}

/// Whether a test is selected by the `-k` expression: each name the expression
/// mentions (other than `and`, `or`, `not`, `True`, `False`) is bound to whether
/// it occurs, ignoring case, in the test's name or extra keywords, and the
/// expression is evaluated over them by Python.  An empty expression selects
/// every test; one that is not written in the grammar, or that Python fails to
/// evaluate, selects none; otherwise the test is selected when the expression
/// is true.
pub fn match_keyword(expr: &str, test_name: &str, extra_names: &Vec<String>) -> (r: bool)
    ensures
        expr@.len() == 0 ==> r,
        r ==> keyword_selects(expr@, test_name@, texts(extra_names@)),
        !admitted(expr@) ==> (r <==> expr@.len() == 0),
        plainly_evaluable(expr@) ==> r == keyword_selects(expr@, test_name@, texts(extra_names@)),
{
    if expr.is_empty() {
        return true;
    }
    if !is_admitted(expr) {
        return false;
    }
    let (names, values) = keyword_context(expr, test_name, extra_names);
    proof {
        lemma_names_cover(expr@);
        let env = keyword_env(test_name@, texts(extra_names@));
        assert forall|i: int| 0 <= i < texts(names@).len() implies env(#[trigger] texts(names@)[i]) == values@[i] by {
            assert(texts(names@)[i] == names@[i]@);
        }
        assert(binds(env, texts(names@), values@));
    }
    let outcome = python_truth(expr, &names, &values);
    proof {
        let env = keyword_env(test_name@, texts(extra_names@));
        assert(binds(env, texts(names@), values@));
    }
    expression_verdict(expr, outcome)
}

/// Whether a test with the given marks is selected by the `-m` expression: each
/// name the expression mentions is bound to whether the test carries that mark,
/// and the expression is evaluated over them by Python.  An empty expression
/// selects every test; one that is not written in the grammar, or that Python
/// fails to evaluate, selects none; otherwise the test is selected when the
/// expression is true.
pub fn match_markexpr(expr: &str, marks: &Vec<String>) -> (r: bool)
    ensures
        expr@.len() == 0 ==> r,
        r ==> mark_selects(expr@, texts(marks@)),
        !admitted(expr@) ==> (r <==> expr@.len() == 0),
        plainly_evaluable(expr@) ==> r == mark_selects(expr@, texts(marks@)),
{
    if expr.is_empty() {
        return true;
    }
    if !is_admitted(expr) {
        return false;
    }
    let (names, values) = mark_context(expr, marks);
    proof {
        lemma_names_cover(expr@);
        let env = mark_env(texts(marks@));
        assert forall|i: int| 0 <= i < texts(names@).len() implies env(#[trigger] texts(names@)[i]) == values@[i] by {
            assert(texts(names@)[i] == names@[i]@);
        }
        assert(binds(env, texts(names@), values@));
    }
    let outcome = python_truth(expr, &names, &values);
    proof {
        let env = mark_env(texts(marks@));
        assert(binds(env, texts(names@), values@));
    }
    expression_verdict(expr, outcome)
}

} // verus!
