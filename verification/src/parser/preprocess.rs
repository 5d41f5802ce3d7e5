use vstd::prelude::*;
use vstd::string::StrSliceExecFns;

use crate::parser::alphanum::{digit_value, is_alphanum, is_digit, is_lower, is_upper};
use crate::parser::keyword::{parse_keyword, spec_keyword_of, Keyword};
use crate::parser::text::chars_of;

verus! {

/// A token of Catly source text.
#[derive(Debug, PartialEq)]
pub enum Out {
    Symbol(char),
    LetName(String),
    TypeName(String),
    Kw(Keyword),
    IntValue(i64),
    UnitValue,
    DiscardValue,
}

/// The mathematical value of a token.
pub enum OutV {
    Symbol(char),
    LetName(Seq<char>),
    TypeName(Seq<char>),
    Kw(Keyword),
    IntValue(i64),
    UnitValue,
    DiscardValue,
}

impl View for Out {
    type V = OutV;

    open spec fn view(&self) -> OutV {
        match self {
            Out::Symbol(c) => OutV::Symbol(*c),
            Out::LetName(n) => OutV::LetName(n@),
            Out::TypeName(n) => OutV::TypeName(n@),
            Out::Kw(k) => OutV::Kw(*k),
            Out::IntValue(i) => OutV::IntValue(*i),
            Out::UnitValue => OutV::UnitValue,
            Out::DiscardValue => OutV::DiscardValue,
        }
    }
}

pub open spec fn outs_view(s: Seq<Out>) -> Seq<OutV> {
    s.map_values(|o: Out| o@)
}

pub open spec fn opt_out_view(o: Option<Out>) -> Option<OutV> {
    match o {
        Some(t) => Some(t@),
        None => None,
    }
}

impl Out {
    /// A copy of the token with the same value.
    pub fn deep_clone(&self) -> (r: Out)
        ensures
            r@ == self@,
    {
        match self {
            Out::Symbol(c) => Out::Symbol(*c),
            Out::LetName(n) => Out::LetName(n.clone()),
            Out::TypeName(n) => Out::TypeName(n.clone()),
            Out::Kw(k) => Out::Kw(*k),
            Out::IntValue(i) => Out::IntValue(*i),
            Out::UnitValue => Out::UnitValue,
            Out::DiscardValue => Out::DiscardValue,
        }
    }
}

impl Clone for Out {
    fn clone(&self) -> (r: Self)
        ensures
            r@ == self@,
    {
        self.deep_clone()
    }
}

pub open spec fn is_blank(c: char) -> bool {
    c == ' ' || c == '\n' || c == '\t' || c == '\r'
}

/// The position of the line break that ends a comment running from `i`,
/// or the end of the text.
pub open spec fn comment_end(s: Seq<char>, i: int) -> int
    decreases s.len() - i,
{
    if i >= s.len() {
        if i >= 0 { i } else { 0 }
    } else if i < 0 {
        0
    } else if s[i] == '\n' {
        i
    } else {
        comment_end(s, i + 1)
    }
}

/// The end of the run of letters and digits that starts at `i`.
pub open spec fn word_end(s: Seq<char>, i: int) -> int
    decreases s.len() - i,
{
    if 0 <= i < s.len() && is_alphanum(s[i]) {
        word_end(s, i + 1)
    } else {
        i
    }
}

/// The decimal value of the first `k` characters of `w`.
pub open spec fn digits_value(w: Seq<char>, k: int) -> int
    decreases k,
{
    if k <= 0 {
        0
    } else {
        digits_value(w, k - 1) * 10 + digit_value(w[k - 1])
    }
}

pub open spec fn all_digits(w: Seq<char>) -> bool {
    forall|i: int| 0 <= i < w.len() ==> is_digit(#[trigger] w[i])
}

/// The token a word of letters and digits stands for: an integer, a
/// keyword, a value name or a type name.
pub open spec fn classify_word(w: Seq<char>) -> Option<OutV> {
    if w.len() == 0 {
        None
    } else if is_digit(w[0]) {
        if all_digits(w) && digits_value(w, w.len() as int) <= i64::MAX {
            Some(OutV::IntValue(digits_value(w, w.len() as int) as i64))
        } else {
            None
        }
    } else {
        match spec_keyword_of(w) {
            Some(k) => Some(OutV::Kw(k)),
            None => if is_lower(w[0]) {
                Some(OutV::LetName(w))
            } else {
                Some(OutV::TypeName(w))
            },
        }
    }
}

pub open spec fn prepend(p: Seq<OutV>, rest: Option<Seq<OutV>>) -> Option<Seq<OutV>> {
    match rest {
        Some(r) => Some(p + r),
        None => None,
    }
}

pub proof fn lemma_comment_end(s: Seq<char>, i: int)
    ensures
        comment_end(s, i) >= i,
        comment_end(s, i) <= s.len() || comment_end(s, i) == i,
        comment_end(s, i) >= 0,
    decreases s.len() - i,
{
    if 0 <= i < s.len() && s[i] != '\n' {
        lemma_comment_end(s, i + 1);
    }
}

pub proof fn lemma_word_end(s: Seq<char>, i: int)
    ensures
        word_end(s, i) >= i,
        0 <= i <= s.len() ==> word_end(s, i) <= s.len(),
        forall|j: int| i <= j < word_end(s, i) ==> is_alphanum(#[trigger] s[j]),
        0 <= word_end(s, i) < s.len() ==> !is_alphanum(s[word_end(s, i)]),
    decreases s.len() - i,
{
    if 0 <= i < s.len() && is_alphanum(s[i]) {
        lemma_word_end(s, i + 1);
    }
}

/// A comment starts at `i`: a `#` followed by a space.  A `#` with no
/// space after it is an ordinary symbol.
pub open spec fn opens_comment(s: Seq<char>, i: int) -> bool {
    0 <= i && i + 1 < s.len() && s[i] == '#' && s[i + 1] == ' '
}

/// The tokens of the text from position `i` on.  Blanks and comments
/// (from `# ` to the end of the line) separate tokens and are dropped;
/// `()` is the unit value and `_` the discard value.
pub open spec fn lex_from(s: Seq<char>, i: int) -> Option<Seq<OutV>>
    decreases s.len() - i,
{
    if i < 0 || i >= s.len() {
        Some(Seq::empty())
    } else {
        let c = s[i];
        if opens_comment(s, i) {
            proof {
                lemma_comment_end(s, i + 1);
            }
            lex_from(s, comment_end(s, i + 1))
        } else if is_blank(c) {
            lex_from(s, i + 1)
        } else if c == '(' && i + 1 < s.len() && s[i + 1] == ')' {
            prepend(seq![OutV::UnitValue], lex_from(s, i + 2))
        } else if c == '_' {
            prepend(seq![OutV::DiscardValue], lex_from(s, i + 1))
        } else if is_alphanum(c) {
            proof {
                lemma_word_end(s, i);
            }
            match classify_word(s.subrange(i, word_end(s, i))) {
                Some(t) => prepend(seq![t], lex_from(s, word_end(s, i))),
                None => None,
            }
        } else {
            prepend(seq![OutV::Symbol(c)], lex_from(s, i + 1))
        }
    }
}

/// The tokens of a whole text.
pub open spec fn spec_lex(s: Seq<char>) -> Option<Seq<OutV>> {
    lex_from(s, 0)
}

/// Tokens without a blank among them.
pub open spec fn no_blanks(s: Seq<OutV>) -> bool {
    forall|i: int| 0 <= i < s.len() ==> s[i] != OutV::Symbol(' ')
}

proof fn lemma_prepend_no_blanks(t: OutV, r: Option<Seq<OutV>>)
    requires
        t != OutV::Symbol(' '),
        r matches Some(x) ==> no_blanks(x),
    ensures
        prepend(seq![t], r) matches Some(x) ==> no_blanks(x),
{
    if let Some(x) = r {
        let y = seq![t] + x;
        assert forall|i: int| 0 <= i < y.len() implies y[i] != OutV::Symbol(' ') by {
            if i > 0 {
                assert(y[i] == x[i - 1]);
            }
        }
    }
}

/// The lexer drops every blank: no token it gives is a blank.
pub proof fn law_lex_drops_blanks(s: Seq<char>, i: int)
    ensures
        lex_from(s, i) matches Some(t) ==> no_blanks(t),
    decreases s.len() - i,
{
    if 0 <= i < s.len() {
        let c = s[i];
        if opens_comment(s, i) {
            lemma_comment_end(s, i + 1);
            law_lex_drops_blanks(s, comment_end(s, i + 1));
        } else if is_blank(c) {
            law_lex_drops_blanks(s, i + 1);
        } else if c == '(' && i + 1 < s.len() && s[i + 1] == ')' {
            law_lex_drops_blanks(s, i + 2);
            lemma_prepend_no_blanks(OutV::UnitValue, lex_from(s, i + 2));
        } else if c == '_' {
            law_lex_drops_blanks(s, i + 1);
            lemma_prepend_no_blanks(OutV::DiscardValue, lex_from(s, i + 1));
        } else if is_alphanum(c) {
            lemma_word_end(s, i);
            law_lex_drops_blanks(s, word_end(s, i));
            if let Some(t) = classify_word(s.subrange(i, word_end(s, i))) {
                lemma_prepend_no_blanks(t, lex_from(s, word_end(s, i)));
            }
        } else {
            law_lex_drops_blanks(s, i + 1);
            lemma_prepend_no_blanks(OutV::Symbol(c), lex_from(s, i + 1));
        }
    }
}

proof fn lemma_comment_to_end(s: Seq<char>, i: int)
    requires
        0 <= i <= s.len(),
        forall|j: int| i <= j < s.len() ==> s[j] != '\n',
    ensures
        comment_end(s, i) == s.len(),
    decreases s.len() - i,
{
    if i < s.len() {
        lemma_comment_to_end(s, i + 1);
    }
}

/// A `# ` with no line break after it makes the rest of the text a
/// comment: it gives no token.
pub proof fn law_comment_to_end_of_text(t: Seq<char>)
    requires
        forall|j: int| 0 <= j < t.len() ==> t[j] != '\n',
    ensures
        spec_lex(seq!['#', ' '] + t) == Some(Seq::<OutV>::empty()),
{
    let s = seq!['#', ' '] + t;
    assert forall|j: int| 1 <= j < s.len() implies s[j] != '\n' by {
        if j >= 2 {
            assert(s[j] == t[j - 2]);
        }
    }
    lemma_comment_to_end(s, 1);
    assert(s[0] == '#' && s[1] == ' ');
    assert(opens_comment(s, 0));
    assert(lex_from(s, s.len() as int) == Some(Seq::<OutV>::empty()));
    assert(lex_from(s, 0) == lex_from(s, comment_end(s, 1)));
}

proof fn lemma_word_to_end(s: Seq<char>, i: int)
    requires
        0 <= i <= s.len(),
        forall|j: int| i <= j < s.len() ==> is_alphanum(#[trigger] s[j]),
    ensures
        word_end(s, i) == s.len(),
    decreases s.len() - i,
{
    if i < s.len() {
        lemma_word_to_end(s, i + 1);
    }
}

/// A word of letters and digits that starts with a lower-case letter and
/// is no keyword is a value name; one that starts with an upper-case letter
/// is a type name.
pub proof fn law_names_by_first_letter(w: Seq<char>)
    requires
        w.len() > 0,
        forall|j: int| 0 <= j < w.len() ==> is_alphanum(#[trigger] w[j]),
        is_lower(w[0]) || is_upper(w[0]),
        spec_keyword_of(w) is None,
    ensures
        is_lower(w[0]) ==> spec_lex(w) == Some(seq![OutV::LetName(w)]),
        is_upper(w[0]) ==> spec_lex(w) == Some(seq![OutV::TypeName(w)]),
{
    lemma_word_to_end(w, 0);
    assert(w.subrange(0, w.len() as int) =~= w);
    assert(!is_digit(w[0]));
    assert(w[0] != '#' && !is_blank(w[0]) && w[0] != '(' && w[0] != '_');
    assert(is_alphanum(w[0]));
    assert(lex_from(w, w.len() as int) == Some(Seq::<OutV>::empty()));
    assert(lex_from(w, 0) == prepend(seq![classify_word(w).unwrap()], lex_from(w, w.len() as int)));
    assert(seq![OutV::LetName(w)] + Seq::<OutV>::empty() =~= seq![OutV::LetName(w)]);
    assert(seq![OutV::TypeName(w)] + Seq::<OutV>::empty() =~= seq![OutV::TypeName(w)]);
}

pub proof fn lemma_outs_view_push(s: Seq<Out>, x: Out)
    ensures
        outs_view(s.push(x)) == outs_view(s) + seq![x@],
{
    assert(outs_view(s.push(x)) =~= outs_view(s) + seq![x@]);
}

fn push_token(out: &mut Vec<Out>, t: Out)
    ensures
        outs_view(final(out)@) == outs_view(old(out)@) + seq![t@],
{
    let ghost gt = t;
    out.push(t);
    proof {
        lemma_outs_view_push(old(out)@, gt);
    }
}

pub proof fn lemma_prepend_assoc(a: Seq<OutV>, b: Seq<OutV>, r: Option<Seq<OutV>>)
    ensures
        prepend(a, prepend(b, r)) == prepend(a + b, r),
{
    match r {
        Some(x) => {
            assert(a + (b + x) =~= (a + b) + x);
        },
        None => {},
    }
}

pub proof fn lemma_digits_value_grows(w: Seq<char>, k: int, m: int)
    requires
        0 <= k <= m <= w.len(),
        all_digits(w),
    ensures
        digits_value(w, k) <= digits_value(w, m),
        digits_value(w, k) >= 0,
    decreases m - k,
{
    if k < m {
        lemma_digits_value_grows(w, k, m - 1);
        lemma_digits_nonneg(w, m - 1);
        assert(is_digit(w[m - 1]));
    } else {
        lemma_digits_nonneg(w, k);
    }
}

pub proof fn lemma_digits_nonneg(w: Seq<char>, k: int)
    requires
        k <= w.len(),
        all_digits(w),
    ensures
        digits_value(w, k) >= 0,
    decreases k,
{
    if k > 0 {
        lemma_digits_nonneg(w, k - 1);
        assert(is_digit(w[k - 1]));
    }
}

/// Reads a run of decimal digits as an `i64`, failing on overflow.
fn read_int(w: &Vec<char>) -> (r: Option<i64>)
    requires
        all_digits(w@),
    ensures
        digits_value(w@, w@.len() as int) <= i64::MAX ==> r == Some(digits_value(w@, w@.len() as int) as i64),
        digits_value(w@, w@.len() as int) > i64::MAX ==> r is None,
{
    let mut v: i64 = 0;
    let mut k: usize = 0;
    while k < w.len()
        invariant
            k <= w.len(),
            all_digits(w@),
            v == digits_value(w@, k as int),
        decreases w.len() - k,
    {
        let c = w[k];
        assert(is_digit(w@[k as int]));
        let d = ((c as u32) - ('0' as u32)) as i64;
        proof {
            lemma_digits_nonneg(w@, k as int);
        }
        if v > 922337203685477580 || (v == 922337203685477580 && d > 7) {
            proof {
                lemma_digits_value_grows(w@, (k + 1) as int, w@.len() as int);
            }
            return None;
        }
        v = v * 10 + d;
        k = k + 1;
    }
    Some(v)
}

fn classify(s: &str, w: &Vec<char>) -> (r: Option<Out>)
    requires
        s@ == w@,
        w@.len() > 0,
        forall|j: int| 0 <= j < w@.len() ==> is_alphanum(#[trigger] w@[j]),
    ensures
        match r {
            Some(t) => classify_word(w@) == Some(t@),
            None => classify_word(w@) is None,
        },
{
    let c0 = w[0];
    if '0' <= c0 && c0 <= '9' {
        let mut k: usize = 0;
        while k < w.len()
            invariant
                k <= w.len(),
                w@.len() > 0,
                is_digit(w@[0]),
                forall|j: int| 0 <= j < k ==> is_digit(#[trigger] w@[j]),
            decreases w.len() - k,
        {
            if !('0' <= w[k] && w[k] <= '9') {
                return None;
            }
            k = k + 1;
        }
        match read_int(w) {
            Some(i) => Some(Out::IntValue(i)),
            None => None,
        }
    } else {
        match parse_keyword(s) {
            Some(k) => Some(Out::Kw(k)),
            None => if 'a' <= c0 && c0 <= 'z' {
                Some(Out::LetName(s.to_owned()))
            } else {
                Some(Out::TypeName(s.to_owned()))
            },
        }
    }
}

/// Reads the token (or the blank or comment) that starts at `i`.
fn lex_step(s: &Vec<char>, text: &str, i: usize, out: &mut Vec<Out>) -> (r: Option<usize>)
    requires
        i < s@.len(),
        s@ == text@,
    ensures
        r matches Some(j) ==> i < j <= s@.len() && prepend(outs_view(old(out)@), lex_from(s@, i as int))
            == prepend(outs_view(final(out)@), lex_from(s@, j as int)),
        r is None ==> lex_from(s@, i as int) is None,
{
    let n = s.len();
    let c = s[i];
    let ghost before = outs_view(out@);
    if c == '#' && i + 1 < n && s[i + 1] == ' ' {
        let mut j = i + 1;
        while j < n && s[j] != '\n'
            invariant
                n == s@.len(),
                i < j <= n,
                comment_end(s@, i + 1) == comment_end(s@, j as int),
            decreases n - j,
        {
            j = j + 1;
        }
        assert(prepend(before, lex_from(s@, i as int)) == prepend(outs_view(out@), lex_from(s@, (j) as int)));
        Some(j)
    } else if c == ' ' || c == '\n' || c == '\t' || c == '\r' {
        assert(prepend(before, lex_from(s@, i as int)) == prepend(outs_view(out@), lex_from(s@, (i + 1) as int)));
        Some(i + 1)
    } else if c == '(' && i + 1 < n && s[i + 1] == ')' {
        let t = Out::UnitValue;
        let ghost tv = t@;
        push_token(out, t);
        proof {
            lemma_prepend_assoc(before, seq![tv], lex_from(s@, i + 2));
        }
        assert(prepend(before, lex_from(s@, i as int)) == prepend(outs_view(out@), lex_from(s@, (i + 2) as int)));
        Some(i + 2)
    } else if c == '_' {
        let t = Out::DiscardValue;
        let ghost tv = t@;
        assert(lex_from(s@, i as int) == prepend(seq![OutV::DiscardValue], lex_from(s@, i + 1)));
        push_token(out, t);
        proof {
            lemma_prepend_assoc(before, seq![tv], lex_from(s@, i + 1));
        }
        assert(prepend(before, lex_from(s@, i as int)) == prepend(outs_view(out@), lex_from(s@, (i + 1) as int)));
        Some(i + 1)
    } else if ('0' <= c && c <= '9') || ('a' <= c && c <= 'z') || ('A' <= c && c <= 'Z') {
        let mut j = i;
        let mut word: Vec<char> = Vec::new();
        proof {
            lemma_word_end(s@, i as int);
        }
        while j < n && (('0' <= s[j] && s[j] <= '9') || ('a' <= s[j] && s[j] <= 'z') || ('A' <= s[j]
            && s[j] <= 'Z'))
            invariant
                n == s@.len(),
                i <= j <= n,
                word_end(s@, i as int) == word_end(s@, j as int),
                word@ == s@.subrange(i as int, j as int),
            decreases n - j,
        {
            word.push(s[j]);
            j = j + 1;
            assert(word@ =~= s@.subrange(i as int, j as int));
        }
        proof {
            lemma_word_end(s@, i as int);
        }
        assert(word_end(s@, i as int) == j);
        let piece = text.substring_char(i, j);
        match classify(piece, &word) {
            Some(t) => {
                let ghost tv = t@;
                push_token(out, t);
                proof {
                    lemma_prepend_assoc(before, seq![tv], lex_from(s@, j as int));
                }
                assert(prepend(before, lex_from(s@, i as int)) == prepend(outs_view(out@), lex_from(s@, (j) as int)));
                Some(j)
            },
            None => None,
        }
    } else {
        lex_symbol(s, i, out)
    }
}

proof fn lemma_outs_view_push1(o: Seq<Out>, t: Out)
    ensures
        outs_view(o.push(t)) == outs_view(o).push(t@),
{
    assert(outs_view(o.push(t)) =~= outs_view(o).push(t@));
}

proof fn lemma_concat_push(a: Seq<OutV>, v: OutV, x: Seq<OutV>)
    ensures
        a + (seq![v] + x) == a.push(v) + x,
{
    assert(a + (seq![v] + x) =~= a.push(v) + x);
}

proof fn lemma_symbol_step(s: Seq<char>, i: int, o: Seq<Out>)
    requires
        0 <= i < s.len(),
        !opens_comment(s, i),
        !is_blank(s[i]),
        !(s[i] == '(' && i + 1 < s.len() && s[i + 1] == ')'),
        s[i] != '_',
        !is_alphanum(s[i]),
    ensures
        prepend(outs_view(o), lex_from(s, i)) == prepend(outs_view(o.push(Out::Symbol(s[i]))), lex_from(s, i + 1)),
{
    let t = Out::Symbol(s[i]);
    let rest = lex_from(s, i + 1);
    assert(lex_from(s, i) == prepend(seq![t@], rest));
    lemma_step_tail(o, t, rest);
}

proof fn lemma_step_tail(o: Seq<Out>, t: Out, rest: Option<Seq<OutV>>)
    ensures
        prepend(outs_view(o), prepend(seq![t@], rest)) == prepend(outs_view(o.push(t)), rest),
{
    lemma_outs_view_push1(o, t);
    match rest {
        Some(x) => {
            lemma_concat_push(outs_view(o), t@, x);
        },
        None => {},
    }
}

fn lex_symbol(s: &Vec<char>, i: usize, out: &mut Vec<Out>) -> (r: Option<usize>)
    requires
        i < s@.len(),
        !opens_comment(s@, i as int),
        !is_blank(s@[i as int]),
        !(s@[i as int] == '(' && i + 1 < s@.len() && s@[i + 1] == ')'),
        s@[i as int] != '_',
        !is_alphanum(s@[i as int]),
    ensures
        r == Some((i + 1) as usize),
        prepend(outs_view(old(out)@), lex_from(s@, i as int)) == prepend(outs_view(final(out)@), lex_from(s@, i + 1)),
{
    let n = s.len();
    let c = s[i];
    let ghost o0 = out@;
    out.push(Out::Symbol(c));
    proof {
        lemma_symbol_step(s@, i as int, o0);
    }
    Some(i + 1)
}

/// Turns source text into tokens; `None` when a word is a malformed or
/// oversized number.
pub fn preprocess(seq: &str) -> (r: Option<Vec<Out>>)
    ensures
        match r {
            Some(v) => spec_lex(seq@) == Some(outs_view(v@)),
            None => spec_lex(seq@) is None,
        },
{
    let s = chars_of(seq);
    let n = s.len();
    let mut out: Vec<Out> = Vec::new();
    let mut i: usize = 0;
    proof {
        assert(outs_view(out@) =~= Seq::<OutV>::empty());
        assert(prepend(Seq::empty(), lex_from(s@, 0)) == lex_from(s@, 0)) by {
            match lex_from(s@, 0) {
                Some(x) => {
                    assert(Seq::<OutV>::empty() + x =~= x);
                },
                None => {},
            }
        }
    }
    while i < n
        invariant
            n == s@.len(),
            s@ == seq@,
            i <= n,
            spec_lex(s@) == prepend(outs_view(out@), lex_from(s@, i as int)),
        decreases n - i,
    {
        match lex_step(&s, seq, i, &mut out) {
            Some(j) => {
                i = j;
            },
            None => {
                return None;
            },
        }
    }
    proof {
        assert(outs_view(out@) + Seq::<OutV>::empty() =~= outs_view(out@));
    }
    Some(out)
}

} // verus!
