//! The grammar-driven parser and command interpreter. The grammar has two
//! top-level constructs, repeated until the end of input:
//!
//! ```text
//! document   := (command | paragraph)*
//! command    := "\" identifier "{" argument "}"
//! identifier := letter (letter | digit)*
//! argument   := any character except an unescaped "}"
//! paragraph  := free text, ended by a blank line, a line that opens a
//!               command, or the end of input
//! ```
//!
//! Inside an argument a backslash escapes the following character, so `\}`
//! does not close the argument; the two characters are kept verbatim. The
//! interpreter dispatches each command into a `Document` mutation and
//! substitutes macros into every consumed text, single-pass and best-effort:
//! a reference to an unknown macro stays literal.

use vstd::prelude::*;

use crate::document::{
    macro_lookup, DocSpec, Document, DocumentElement, ElemSpec, Paragraph, Section, Subsection,
};
use crate::errors::{ErrSpec, RustaTexError};
use crate::text::{
    append_range, chars_range_to_string, is_letter, is_letter_char, is_digit, is_digit_char,
    is_space, is_space_char, is_word, is_word_char, str_eq, str_to_chars, trim_range, trim_spec,
};

verus! {

// ---------------------------------------------------------------------------
// Scanners: each spec function gives the index where a lexical run ends, and
// has an executable twin that computes it.
// ---------------------------------------------------------------------------
/// The first index at or after `i` that does not hold whitespace.
pub open spec fn skip_ws_end(s: Seq<char>, i: int) -> int
    decreases s.len() - i,
{
    if 0 <= i < s.len() && is_space_char(s[i]) {
        skip_ws_end(s, i + 1)
    } else {
        i
    }
}

/// The first index at or after `i` that does not continue an identifier
/// (identifiers continue with letters and digits).
pub open spec fn ident_tail_end(s: Seq<char>, i: int) -> int
    decreases s.len() - i,
{
    if 0 <= i < s.len() && (is_letter_char(s[i]) || is_digit_char(s[i])) {
        ident_tail_end(s, i + 1)
    } else {
        i
    }
}

/// The first index at or after `i` that does not hold a word character
/// (letter, digit or underscore).
pub open spec fn word_end(s: Seq<char>, i: int) -> int
    decreases s.len() - i,
{
    if 0 <= i < s.len() && is_word_char(s[i]) {
        word_end(s, i + 1)
    } else {
        i
    }
}

/// The first index at or after `i` that does not hold horizontal whitespace
/// (space, tab, carriage return).
pub open spec fn hskip_end(s: Seq<char>, i: int) -> int
    decreases s.len() - i,
{
    if 0 <= i < s.len() && (s[i] == ' ' || s[i] == '\t' || s[i] == '\r') {
        hskip_end(s, i + 1)
    } else {
        i
    }
}

/// Where the argument that starts at `i` ends: the index of the first
/// unescaped `}`, or the text's length when no unescaped `}` follows.
pub open spec fn arg_end(s: Seq<char>, i: int) -> int
    decreases s.len() - i,
{
    if i >= s.len() {
        s.len() as int
    } else if s[i] == '}' {
        i
    } else if s[i] == '\\' && i + 1 < s.len() {
        arg_end(s, i + 2)
    } else {
        arg_end(s, i + 1)
    }
}

/// Whether the text starting at `k` opens a paragraph break: after horizontal
/// whitespace comes another newline, a command, or the end of input.
pub open spec fn para_break(s: Seq<char>, k: int) -> bool {
    let j = hskip_end(s, k);
    j >= s.len() || s[j] == '\n' || s[j] == '\\'
}

/// Where the paragraph that starts at `i` ends: at the first newline followed
/// by a paragraph break, or at the end of input.
pub open spec fn para_end(s: Seq<char>, i: int) -> int
    decreases s.len() - i,
{
    if !(0 <= i < s.len()) {
        if i < 0 {
            i
        } else {
            s.len() as int
        }
    } else if s[i] == '\n' && para_break(s, i + 1) {
        i
    } else {
        para_end(s, i + 1)
    }
}

/// How many times `c` occurs in `s[i..]`.
pub open spec fn count_char_from(s: Seq<char>, c: char, i: int) -> int
    decreases s.len() - i,
{
    if !(0 <= i < s.len()) {
        0
    } else {
        (if s[i] == c {
            1int
        } else {
            0int
        }) + count_char_from(s, c, i + 1)
    }
}

/// The first index at or after `i` holding `c`, or the text's length when `c`
/// does not occur in `s[i..]`.
pub open spec fn find_char_from(s: Seq<char>, c: char, i: int) -> int
    decreases s.len() - i,
{
    if !(0 <= i < s.len()) {
        s.len() as int
    } else if s[i] == c {
        i
    } else {
        find_char_from(s, c, i + 1)
    }
}

/// The 1-based line number of position `p` in `s`.
pub open spec fn line_at(s: Seq<char>, p: int) -> int
    decreases p,
{
    if p <= 0 {
        1
    } else {
        line_at(s, p - 1) + if s[p - 1] == '\n' {
            1int
        } else {
            0int
        }
    }
}

/// The 1-based column number of position `p` in `s`.
pub open spec fn col_at(s: Seq<char>, p: int) -> int
    decreases p,
{
    if p <= 0 {
        1
    } else if s[p - 1] == '\n' {
        1
    } else {
        col_at(s, p - 1) + 1
    }
}

// ---------------------------------------------------------------------------
// Bounds of the scanners.
// ---------------------------------------------------------------------------
pub proof fn lemma_skip_ws_bounds(s: Seq<char>, i: int)
    requires
        0 <= i <= s.len(),
    ensures
        i <= skip_ws_end(s, i) <= s.len(),
        skip_ws_end(s, i) < s.len() ==> !is_space_char(s[skip_ws_end(s, i)]),
    decreases s.len() - i,
{
    if i < s.len() && is_space_char(s[i]) {
        lemma_skip_ws_bounds(s, i + 1);
    }
}

pub proof fn lemma_ident_tail_bounds(s: Seq<char>, i: int)
    requires
        0 <= i <= s.len(),
    ensures
        i <= ident_tail_end(s, i) <= s.len(),
    decreases s.len() - i,
{
    if i < s.len() && (is_letter_char(s[i]) || is_digit_char(s[i])) {
        lemma_ident_tail_bounds(s, i + 1);
    }
}

pub proof fn lemma_word_end_bounds(s: Seq<char>, i: int)
    requires
        0 <= i <= s.len(),
    ensures
        i <= word_end(s, i) <= s.len(),
    decreases s.len() - i,
{
    if i < s.len() && is_word_char(s[i]) {
        lemma_word_end_bounds(s, i + 1);
    }
}

pub proof fn lemma_arg_end_bounds(s: Seq<char>, i: int)
    requires
        0 <= i <= s.len(),
    ensures
        i <= arg_end(s, i) <= s.len(),
    decreases s.len() - i,
{
    if i >= s.len() {
    } else if s[i] == '}' {
    } else if s[i] == '\\' && i + 1 < s.len() {
        lemma_arg_end_bounds(s, i + 2);
    } else {
        lemma_arg_end_bounds(s, i + 1);
    }
}

pub proof fn lemma_para_end_bounds(s: Seq<char>, i: int)
    requires
        0 <= i <= s.len(),
    ensures
        i <= para_end(s, i) <= s.len(),
    decreases s.len() - i,
{
    if i < s.len() && !(s[i] == '\n' && para_break(s, i + 1)) {
        lemma_para_end_bounds(s, i + 1);
    }
}

/// Skipping whitespace is idempotent.
pub proof fn lemma_skip_ws_idempotent(s: Seq<char>, i: int)
    requires
        0 <= i <= s.len(),
    ensures
        skip_ws_end(s, skip_ws_end(s, i)) == skip_ws_end(s, i),
    decreases s.len() - i,
{
    lemma_skip_ws_bounds(s, i);
    if i < s.len() && is_space_char(s[i]) {
        lemma_skip_ws_idempotent(s, i + 1);
    }
}

// ---------------------------------------------------------------------------
// Executable twins of the scanners.
// ---------------------------------------------------------------------------
/// Executable twin of `skip_ws_end`.
pub fn scan_skip_ws(v: &Vec<char>, i: usize) -> (r: usize)
    requires
        i <= v@.len(),
    ensures
        r as int == skip_ws_end(v@, i as int),
        i <= r <= v@.len(),
{
    let mut j = i;
    while j < v.len() && is_space(v[j])
        invariant
            i <= j <= v@.len(),
            skip_ws_end(v@, i as int) == skip_ws_end(v@, j as int),
        decreases v@.len() - j,
    {
        j = j + 1;
    }
    j
}

/// Executable twin of `ident_tail_end`.
pub fn scan_ident_tail(v: &Vec<char>, i: usize) -> (r: usize)
    requires
        i <= v@.len(),
    ensures
        r as int == ident_tail_end(v@, i as int),
        i <= r <= v@.len(),
{
    let mut j = i;
    while j < v.len() && (is_letter(v[j]) || is_digit(v[j]))
        invariant
            i <= j <= v@.len(),
            ident_tail_end(v@, i as int) == ident_tail_end(v@, j as int),
        decreases v@.len() - j,
    {
        j = j + 1;
    }
    j
}

/// Executable twin of `word_end`.
pub fn scan_word_end(v: &Vec<char>, i: usize) -> (r: usize)
    requires
        i <= v@.len(),
    ensures
        r as int == word_end(v@, i as int),
        i <= r <= v@.len(),
{
    let mut j = i;
    while j < v.len() && is_word(v[j])
        invariant
            i <= j <= v@.len(),
            word_end(v@, i as int) == word_end(v@, j as int),
        decreases v@.len() - j,
    {
        j = j + 1;
    }
    j
}

/// Executable twin of `arg_end`.
pub fn scan_arg_end(v: &Vec<char>, i: usize) -> (r: usize)
    requires
        i <= v@.len(),
    ensures
        r as int == arg_end(v@, i as int),
        i <= r <= v@.len(),
{
    proof {
        lemma_arg_end_bounds(v@, i as int);
    }
    let mut j = i;
    loop
        invariant
            i <= j <= v@.len(),
            arg_end(v@, i as int) == arg_end(v@, j as int),
            arg_end(v@, i as int) <= v@.len(),
        decreases v@.len() - j,
    {
        if j >= v.len() {
            return j;
        }
        if v[j] == '}' {
            return j;
        }
        if v[j] == '\\' && j + 1 < v.len() {
            j = j + 2;
        } else {
            j = j + 1;
        }
    }
}

/// Executable twin of `para_break`.
pub fn scan_para_break(v: &Vec<char>, k: usize) -> (r: bool)
    requires
        k <= v@.len(),
    ensures
        r == para_break(v@, k as int),
{
    let mut j = k;
    while j < v.len() && (v[j] == ' ' || v[j] == '\t' || v[j] == '\r')
        invariant
            k <= j <= v@.len(),
            hskip_end(v@, k as int) == hskip_end(v@, j as int),
        decreases v@.len() - j,
    {
        j = j + 1;
    }
    j >= v.len() || v[j] == '\n' || v[j] == '\\'
}

/// Executable twin of `para_end`.
pub fn scan_para_end(v: &Vec<char>, i: usize) -> (r: usize)
    requires
        i <= v@.len(),
    ensures
        r as int == para_end(v@, i as int),
        i <= r <= v@.len(),
{
    let mut j = i;
    loop
        invariant
            i <= j <= v@.len(),
            para_end(v@, i as int) == para_end(v@, j as int),
        decreases v@.len() - j,
    {
        if j >= v.len() {
            return j;
        }
        if v[j] == '\n' && scan_para_break(v, j + 1) {
            return j;
        }
        j = j + 1;
    }
}

/// Executable line and column of position `p`, both 1-based.
pub fn position_at(v: &Vec<char>, p: usize) -> (r: (usize, usize))
    requires
        p < v@.len(),
    ensures
        r.0 as int == line_at(v@, p as int),
        r.1 as int == col_at(v@, p as int),
{
    let n = v.len();
    let mut line: usize = 1;
    let mut col: usize = 1;
    let mut k: usize = 0;
    while k < p
        invariant
            n == v@.len(),
            k <= p < v@.len(),
            line as int == line_at(v@, k as int),
            col as int == col_at(v@, k as int),
            line <= k + 1,
            col <= k + 1,
        decreases p - k,
    {
        if v[k] == '\n' {
            line = line + 1;
            col = 1;
        } else {
            col = col + 1;
        }
        k = k + 1;
    }
    (line, col)
}

// ---------------------------------------------------------------------------
// Macro substitution.
// ---------------------------------------------------------------------------
/// The substituted text from position `i` on: each `\word` whose name the
/// table resolves is replaced by the macro's value, a reference to an unknown
/// name stays literal, and everything else is copied. Single pass: values are
/// not expanded again.
pub open spec fn subst_at(t: Seq<char>, ms: Seq<(Seq<char>, Seq<char>)>, i: int) -> Seq<char>
    decreases t.len() - i,
    via subst_at_decreases
{
    if !(0 <= i < t.len()) {
        Seq::empty()
    } else if t[i] == '\\' && word_end(t, i + 1) > i + 1 {
        let e = word_end(t, i + 1);
        let name = t.subrange(i + 1, e);
        (match macro_lookup(ms, name) {
            Some(v) => v,
            None => t.subrange(i, e),
        }) + subst_at(t, ms, e)
    } else {
        seq![t[i]] + subst_at(t, ms, i + 1)
    }
}

#[via_fn]
proof fn subst_at_decreases(t: Seq<char>, ms: Seq<(Seq<char>, Seq<char>)>, i: int) {
    if 0 <= i < t.len() {
        lemma_word_end_bounds(t, i + 1);
    }
}

/// The whole text after macro substitution.
pub open spec fn subst_spec(t: Seq<char>, ms: Seq<(Seq<char>, Seq<char>)>) -> Seq<char> {
    subst_at(t, ms, 0)
}

/// Substitutes macros into `text` using the document's macro table: a
/// `\word` reference is replaced by the latest definition of `word`, or kept
/// literal when `word` was never defined.
pub fn substitute_macros(text: &str, document: &Document) -> (r: String)
    ensures
        r@ == subst_spec(text@, document@.macros),
{
    let ghost t = text@;
    let ghost ms = document@.macros;
    let v = str_to_chars(text);
    let mut out: Vec<char> = Vec::new();
    let mut i: usize = 0;
    while i < v.len()
        invariant
            v@ == t,
            ms == document@.macros,
            i <= v@.len(),
            out@ + subst_at(t, ms, i as int) == subst_spec(t, ms),
        decreases v@.len() - i,
    {
        if v[i] == '\\' {
            let e = scan_word_end(&v, i + 1);
            if e > i + 1 {
                let ghost out_before = out@;
                let name = chars_range_to_string(&v, i + 1, e);
                let looked = document.get_macro(name.as_str());
                match looked {
                    Some(value) => {
                        let mut value_chars = str_to_chars(value.as_str());
                        let n = value_chars.len();
                        append_range(&mut out, &value_chars, 0, n);
                        proof {
                            assert(value_chars@.subrange(0, n as int) =~= value_chars@);
                        }
                    },
                    None => {
                        append_range(&mut out, &v, i, e);
                    },
                }
                proof {
                    let repl = match macro_lookup(ms, t.subrange(i as int + 1, e as int)) {
                        Some(value) => value,
                        None => t.subrange(i as int, e as int),
                    };
                    assert(out@ =~= out_before + repl);
                    assert(subst_at(t, ms, i as int) == repl + subst_at(t, ms, e as int));
                    assert((out_before + repl) + subst_at(t, ms, e as int) =~= out_before + (repl
                        + subst_at(t, ms, e as int)));
                }
                i = e;
            } else {
                let ghost out_before = out@;
                out.push(v[i]);
                proof {
                    assert(out@ =~= out_before + seq![t[i as int]]);
                    assert((out_before + seq![t[i as int]]) + subst_at(t, ms, i as int + 1)
                        =~= out_before + (seq![t[i as int]] + subst_at(t, ms, i as int + 1)));
                }
                i = i + 1;
            }
        } else {
            let ghost out_before = out@;
            out.push(v[i]);
            proof {
                assert(out@ =~= out_before + seq![t[i as int]]);
                assert((out_before + seq![t[i as int]]) + subst_at(t, ms, i as int + 1)
                    =~= out_before + (seq![t[i as int]] + subst_at(t, ms, i as int + 1)));
            }
            i = i + 1;
        }
    }
    proof {
        assert(subst_at(t, ms, i as int) =~= Seq::<char>::empty());
        assert(out@ + Seq::<char>::empty() =~= out@);
    }
    crate::text::chars_to_string(&out)
}

// ---------------------------------------------------------------------------
// Command dispatch.
// ---------------------------------------------------------------------------
/// What one recognized command does to the document, or the error an
/// unrecognized or malformed one raises. `line` and `col` locate the command
/// in the input. A `macro` argument must hold exactly one `=`; its two sides
/// are trimmed and the definition replaces any earlier one of the same name.
/// Every other argument is macro-substituted with the table as it stands at
/// this point.
pub open spec fn dispatch_spec(
    doc: DocSpec,
    name: Seq<char>,
    arg: Seq<char>,
    line: int,
    col: int,
) -> Result<DocSpec, ErrSpec> {
    if name == "section"@ {
        Ok(
            DocSpec {
                elements: doc.elements.push(
                    ElemSpec::Section { title: subst_spec(arg, doc.macros), label: None },
                ),
                ..doc
            },
        )
    } else if name == "subsection"@ {
        Ok(
            DocSpec {
                elements: doc.elements.push(
                    ElemSpec::Subsection { title: subst_spec(arg, doc.macros), label: None },
                ),
                ..doc
            },
        )
    } else if name == "paragraph"@ {
        Ok(
            DocSpec {
                elements: doc.elements.push(
                    ElemSpec::Paragraph { text: subst_spec(arg, doc.macros), style: None },
                ),
                ..doc
            },
        )
    } else if name == "macro"@ {
        if count_char_from(arg, '=', 0) == 1 {
            let e = find_char_from(arg, '=', 0);
            Ok(
                DocSpec {
                    macros: crate::document::remove_macro(
                        doc.macros,
                        trim_spec(arg.subrange(0, e)),
                    ).push(
                        (
                            trim_spec(arg.subrange(0, e)),
                            trim_spec(arg.subrange(e + 1, arg.len() as int)),
                        ),
                    ),
                    ..doc
                },
            )
        } else {
            Err(ErrSpec::InvalidSyntax { argument: arg, line, column: col })
        }
    } else if name == "title"@ {
        Ok(DocSpec { title: Some(subst_spec(arg, doc.macros)), ..doc })
    } else if name == "author"@ {
        Ok(DocSpec { author: Some(subst_spec(arg, doc.macros)), ..doc })
    } else if name == "date"@ {
        Ok(DocSpec { date: Some(subst_spec(arg, doc.macros)), ..doc })
    } else {
        Err(ErrSpec::UnknownCommand { name, line, column: col })
    }
}

/// A character occurs in `s[i..]` exactly when the scan for it stops before
/// the end of the text, and the scan stops on that character.
pub proof fn lemma_find_count_char(s: Seq<char>, c: char, i: int)
    requires
        0 <= i <= s.len(),
    ensures
        i <= find_char_from(s, c, i) <= s.len(),
        (count_char_from(s, c, i) > 0) <==> (find_char_from(s, c, i) < s.len()),
        count_char_from(s, c, i) >= 0,
    decreases s.len() - i,
{
    if i < s.len() {
        lemma_find_count_char(s, c, i + 1);
    }
}

/// Counts the `=` characters in `parts` and finds the first one: returns
/// `(count, first index)`, the index being `parts.len()` when none occurs.
fn scan_eq_sign(parts: &Vec<char>) -> (r: (usize, usize))
    ensures
        r.0 as int == count_char_from(parts@, '=', 0),
        r.1 as int == find_char_from(parts@, '=', 0),
{
    let n = parts.len();
    let mut cnt: usize = 0;
    let mut first: usize = n;
    let mut found = false;
    let mut i: usize = 0;
    while i < n
        invariant
            n == parts@.len(),
            i <= n,
            cnt <= i,
            cnt as int + count_char_from(parts@, '=', i as int) == count_char_from(parts@, '=', 0),
            found ==> first < i && find_char_from(parts@, '=', 0) == first as int,
            !found ==> first == n && find_char_from(parts@, '=', 0) == find_char_from(
                parts@,
                '=',
                i as int,
            ),
        decreases n - i,
    {
        if parts[i] == '=' {
            cnt = cnt + 1;
            if !found {
                found = true;
                first = i;
            }
        }
        i = i + 1;
    }
    (cnt, first)
}

/// Interprets one command against the document. Recognized identifiers are
/// `section`, `subsection`, `paragraph`, `macro`, `title`, `author` and
/// `date`; anything else is an unknown command. On an error the document is
/// left untouched.
pub fn interpret_command(
    document: &mut Document,
    name: &String,
    arg: &String,
    line: usize,
    column: usize,
) -> (r: Result<(), RustaTexError>)
    ensures
        match r {
            Ok(()) => dispatch_spec(old(document)@, name@, arg@, line as int, column as int)
                == Ok::<DocSpec, ErrSpec>(final(document)@),
            Err(e) => dispatch_spec(old(document)@, name@, arg@, line as int, column as int)
                == Err::<DocSpec, ErrSpec>(e@) && final(document)@ == old(document)@,
        },
{
    if str_eq(name.as_str(), "section") {
        let title = substitute_macros(arg.as_str(), document);
        document.add_element(DocumentElement::Section(Section { title, label: None }));
        Ok(())
    } else if str_eq(name.as_str(), "subsection") {
        let title = substitute_macros(arg.as_str(), document);
        document.add_element(DocumentElement::Subsection(Subsection { title, label: None }));
        Ok(())
    } else if str_eq(name.as_str(), "paragraph") {
        let text = substitute_macros(arg.as_str(), document);
        document.add_element(DocumentElement::Paragraph(Paragraph { text, style: None }));
        Ok(())
    } else if str_eq(name.as_str(), "macro") {
        let parts = str_to_chars(arg.as_str());
        let (cnt, first) = scan_eq_sign(&parts);
        if cnt == 1 {
            proof {
                lemma_find_count_char(parts@, '=', 0);
            }
            let (name_lo, name_hi) = trim_range(&parts, 0, first);
            let macro_name = chars_range_to_string(&parts, name_lo, name_hi);
            let (value_lo, value_hi) = trim_range(&parts, first + 1, parts.len());
            let macro_value = chars_range_to_string(&parts, value_lo, value_hi);
            document.define_macro(macro_name, macro_value);
            proof {
                assert(parts@.subrange(0, parts@.len() as int) =~= parts@);
            }
            Ok(())
        } else {
            Err(RustaTexError::InvalidSyntax { argument: arg.clone(), line, column })
        }
    } else if str_eq(name.as_str(), "title") {
        let text = substitute_macros(arg.as_str(), document);
        document.set_title(text);
        Ok(())
    } else if str_eq(name.as_str(), "author") {
        let text = substitute_macros(arg.as_str(), document);
        document.set_author(text);
        Ok(())
    } else if str_eq(name.as_str(), "date") {
        let text = substitute_macros(arg.as_str(), document);
        document.set_date(text);
        Ok(())
    } else {
        Err(RustaTexError::UnknownCommand { name: name.clone(), line, column })
    }
}

// ---------------------------------------------------------------------------
// The two parse steps and the whole parse.
// ---------------------------------------------------------------------------
/// One command step at position `j` (which holds the backslash): on success
/// the new document and the position just past the closing brace, otherwise
/// the error. Grammar-level failures (no identifier, no `{`, no closing `}`)
/// are syntax errors at the command's own position.
pub open spec fn command_step_spec(s: Seq<char>, j: int, doc: DocSpec) -> Result<
    (DocSpec, int),
    ErrSpec,
> {
    let id_start = j + 1;
    if id_start >= s.len() || !is_letter_char(s[id_start]) {
        Err(ErrSpec::Syntax { line: line_at(s, j), column: col_at(s, j) })
    } else {
        let id_end = ident_tail_end(s, id_start + 1);
        if id_end >= s.len() || s[id_end] != '{' {
            Err(ErrSpec::Syntax { line: line_at(s, j), column: col_at(s, j) })
        } else {
            let a_start = id_end + 1;
            let a_end = arg_end(s, a_start);
            if a_end >= s.len() {
                Err(ErrSpec::Syntax { line: line_at(s, j), column: col_at(s, j) })
            } else {
                match dispatch_spec(
                    doc,
                    s.subrange(id_start, id_end),
                    s.subrange(a_start, a_end),
                    line_at(s, j),
                    col_at(s, j),
                ) {
                    Ok(d) => Ok((d, a_end + 1)),
                    Err(e) => Err(e),
                }
            }
        }
    }
}

/// One paragraph step at position `j`: the paragraph's text runs to the next
/// paragraph break, is trimmed, macro-substituted, and appended; the new
/// position is the paragraph's end.
pub open spec fn paragraph_step_spec(s: Seq<char>, j: int, doc: DocSpec) -> (DocSpec, int) {
    let p_end = para_end(s, j);
    let text = subst_spec(trim_spec(s.subrange(j, p_end)), doc.macros);
    (
        DocSpec {
            elements: doc.elements.push(ElemSpec::Paragraph { text, style: None }),
            ..doc
        },
        p_end,
    )
}

/// The whole parse from position `i` on: constructs repeat until the end of
/// input, each one a command where a backslash opens it and a paragraph
/// otherwise; the first error aborts the parse.
pub open spec fn parse_spec(s: Seq<char>, doc: DocSpec, i: int) -> Result<DocSpec, ErrSpec>
    decreases s.len() - i,
    via parse_spec_decreases
{
    if !(0 <= i <= s.len()) {
        Ok(doc)
    } else {
        let j = skip_ws_end(s, i);
        if j >= s.len() {
            Ok(doc)
        } else if s[j] == '\\' {
            match command_step_spec(s, j, doc) {
                Ok((d, n)) => parse_spec(s, d, n),
                Err(e) => Err(e),
            }
        } else {
            let (d, n) = paragraph_step_spec(s, j, doc);
            parse_spec(s, d, n)
        }
    }
}

#[via_fn]
proof fn parse_spec_decreases(s: Seq<char>, doc: DocSpec, i: int) {
    if 0 <= i <= s.len() {
        lemma_skip_ws_bounds(s, i);
        let j = skip_ws_end(s, i);
        if j < s.len() {
            if s[j] == '\\' {
                if j + 1 < s.len() && is_letter_char(s[j + 1]) {
                    lemma_ident_tail_bounds(s, j + 2);
                    let id_end = ident_tail_end(s, j + 2);
                    if id_end < s.len() && s[id_end] == '{' {
                        lemma_arg_end_bounds(s, id_end + 1);
                    }
                }
            } else {
                lemma_para_end_bounds(s, j + 1);
            }
        }
    }
}

// ---------------------------------------------------------------------------
// Laws of substitution and dispatch.
// ---------------------------------------------------------------------------
/// Whether every macro reference in `t[i..]` fails to resolve in `ms`.
pub open spec fn all_refs_unresolved(t: Seq<char>, ms: Seq<(Seq<char>, Seq<char>)>, i: int) -> bool
    decreases t.len() - i,
    via all_refs_unresolved_decreases
{
    if !(0 <= i < t.len()) {
        true
    } else if t[i] == '\\' && word_end(t, i + 1) > i + 1 {
        let e = word_end(t, i + 1);
        macro_lookup(ms, t.subrange(i + 1, e)) is None && all_refs_unresolved(t, ms, e)
    } else {
        all_refs_unresolved(t, ms, i + 1)
    }
}

#[via_fn]
proof fn all_refs_unresolved_decreases(t: Seq<char>, ms: Seq<(Seq<char>, Seq<char>)>, i: int) {
    if 0 <= i < t.len() {
        lemma_word_end_bounds(t, i + 1);
    }
}

proof fn lemma_subst_at_unresolved(t: Seq<char>, ms: Seq<(Seq<char>, Seq<char>)>, i: int)
    requires
        0 <= i <= t.len(),
        all_refs_unresolved(t, ms, i),
    ensures
        subst_at(t, ms, i) == t.skip(i),
    decreases t.len() - i,
{
    if i == t.len() {
        assert(subst_at(t, ms, i) =~= t.skip(i));
    } else if t[i] == '\\' && word_end(t, i + 1) > i + 1 {
        let e = word_end(t, i + 1);
        lemma_word_end_bounds(t, i + 1);
        lemma_subst_at_unresolved(t, ms, e);
        assert(t.subrange(i, e) + t.skip(e) =~= t.skip(i));
    } else {
        lemma_subst_at_unresolved(t, ms, i + 1);
        assert(seq![t[i]] + t.skip(i + 1) =~= t.skip(i));
    }
}

/// An unresolved macro reference is a no-op: when no reference in a text
/// resolves, substitution returns the text unchanged. In particular a
/// `\undefined` with no matching macro stays literal.
pub proof fn lemma_subst_unresolved_identity(t: Seq<char>, ms: Seq<(Seq<char>, Seq<char>)>)
    requires
        all_refs_unresolved(t, ms, 0),
    ensures
        subst_spec(t, ms) == t,
{
    lemma_subst_at_unresolved(t, ms, 0);
    assert(t.skip(0) =~= t);
}

proof fn lemma_word_end_all_words(t: Seq<char>, i: int)
    requires
        0 <= i <= t.len(),
        forall|j: int| i <= j < t.len() ==> is_word_char(t[j]),
    ensures
        word_end(t, i) == t.len(),
    decreases t.len() - i,
{
    if i < t.len() {
        lemma_word_end_all_words(t, i + 1);
    }
}

/// A reference to a defined macro is substituted: a text that is exactly a
/// backslash followed by a defined name becomes that name's value.
pub proof fn lemma_subst_resolves_reference(
    name: Seq<char>,
    ms: Seq<(Seq<char>, Seq<char>)>,
    value: Seq<char>,
)
    requires
        name.len() > 0,
        forall|j: int| 0 <= j < name.len() ==> is_word_char(name[j]),
        macro_lookup(ms, name) == Some(value),
    ensures
        subst_spec(seq!['\\'] + name, ms) == value,
{
    let t = seq!['\\'] + name;
    assert(t[0] == '\\');
    assert(forall|j: int| 1 <= j < t.len() ==> is_word_char(t[j]));
    lemma_word_end_all_words(t, 1);
    assert(word_end(t, 1) == t.len());
    assert(t.subrange(1, t.len() as int) =~= name);
    assert(subst_at(t, ms, t.len() as int) =~= Seq::<char>::empty());
    assert(value + Seq::<char>::empty() =~= value);
}

/// The `macro` command never touches the document's elements or metadata: a
/// well-formed definition only replaces the name's entry in the macro table
/// (so earlier paragraphs keep the literal reference, and later lookups see
/// the new value), and a malformed one — not exactly one `=` — is an
/// invalid-syntax error, carrying the argument, that leaves the document as
/// it was.
pub proof fn lemma_macro_command(doc: DocSpec, arg: Seq<char>, line: int, col: int)
    ensures
        count_char_from(arg, '=', 0) == 1 ==> dispatch_spec(doc, "macro"@, arg, line, col)
            == Ok::<DocSpec, ErrSpec>(
            DocSpec {
                macros: crate::document::remove_macro(
                    doc.macros,
                    trim_spec(arg.subrange(0, find_char_from(arg, '=', 0))),
                ).push(
                    (
                        trim_spec(arg.subrange(0, find_char_from(arg, '=', 0))),
                        trim_spec(arg.subrange(find_char_from(arg, '=', 0) + 1, arg.len() as int)),
                    ),
                ),
                ..doc
            },
        ),
        count_char_from(arg, '=', 0) != 1 ==> dispatch_spec(doc, "macro"@, arg, line, col)
            == Err::<DocSpec, ErrSpec>(ErrSpec::InvalidSyntax { argument: arg, line, column: col }),
{
    reveal_strlit("macro");
    reveal_strlit("section");
    reveal_strlit("subsection");
    reveal_strlit("paragraph");
    assert("macro"@.len() == 5);
    assert("section"@.len() == 7);
    assert("subsection"@.len() == 10);
    assert("paragraph"@.len() == 9);
}

/// An unknown command is fatal: a name outside the recognized set dispatches
/// to an unknown-command error carrying the name and the position, whatever
/// the document and the argument.
pub proof fn lemma_unknown_command_fatal(
    doc: DocSpec,
    name: Seq<char>,
    arg: Seq<char>,
    line: int,
    col: int,
)
    requires
        name != "section"@,
        name != "subsection"@,
        name != "paragraph"@,
        name != "macro"@,
        name != "title"@,
        name != "author"@,
        name != "date"@,
    ensures
        dispatch_spec(doc, name, arg, line, col) == Err::<DocSpec, ErrSpec>(
            ErrSpec::UnknownCommand { name, line, column: col },
        ),
{
}

/// The recursive-descent state machine over the markup grammar: the input as
/// characters, and the position reached so far.
pub struct RustaTexParser {
    pub chars: Vec<char>,
    pub pos: usize,
}

impl RustaTexParser {
    /// The position never leaves the input.
    pub open spec fn wf(&self) -> bool {
        self.pos <= self.chars@.len()
    }

    /// A fresh parser at the start of the input.
    pub fn new(input: &str) -> (p: RustaTexParser)
        ensures
            p.chars@ == input@,
            p.pos == 0,
            p.wf(),
    {
        RustaTexParser { chars: str_to_chars(input), pos: 0 }
    }

    /// Moves the position past any whitespace.
    pub fn skip_whitespace(&mut self)
        requires
            old(self).wf(),
        ensures
            final(self).chars@ == old(self).chars@,
            final(self).pos as int == skip_ws_end(old(self).chars@, old(self).pos as int),
            old(self).pos <= final(self).pos,
            final(self).wf(),
    {
        let p = scan_skip_ws(&self.chars, self.pos);
        self.pos = p;
    }

    /// Whether the whole input has been consumed.
    pub fn at_end(&self) -> (r: bool)
        ensures
            r == (self.pos >= self.chars@.len()),
    {
        self.pos >= self.chars.len()
    }

    /// Parses one `\identifier{argument}` command at the current position and
    /// interprets it against the document. On an error, parser and document
    /// are left as they were.
    pub fn parse_command(&mut self, document: &mut Document) -> (r: Result<(), RustaTexError>)
        requires
            old(self).wf(),
            old(self).pos < old(self).chars@.len(),
            old(self).chars@[old(self).pos as int] == '\\',
        ensures
            final(self).chars@ == old(self).chars@,
            final(self).wf(),
            match r {
                Ok(()) => command_step_spec(
                    old(self).chars@,
                    old(self).pos as int,
                    old(document)@,
                ) == Ok::<(DocSpec, int), ErrSpec>((final(document)@, final(self).pos as int))
                    && final(self).pos > old(self).pos,
                Err(e) => command_step_spec(old(self).chars@, old(self).pos as int, old(document)@)
                    == Err::<(DocSpec, int), ErrSpec>(e@) && final(document)@ == old(document)@
                    && final(self).pos == old(self).pos,
            },
    {
        let ghost s = self.chars@;
        let n = self.chars.len();
        let j = self.pos;
        let id_start = j + 1;
        if id_start >= n || !is_letter(self.chars[id_start]) {
            let (line, column) = position_at(&self.chars, j);
            return Err(RustaTexError::SyntaxError { line, column });
        }
        let id_end = scan_ident_tail(&self.chars, id_start + 1);
        if id_end >= self.chars.len() || self.chars[id_end] != '{' {
            let (line, column) = position_at(&self.chars, j);
            return Err(RustaTexError::SyntaxError { line, column });
        }
        let a_start = id_end + 1;
        let a_end = scan_arg_end(&self.chars, a_start);
        if a_end >= self.chars.len() {
            let (line, column) = position_at(&self.chars, j);
            return Err(RustaTexError::SyntaxError { line, column });
        }
        let name = chars_range_to_string(&self.chars, id_start, id_end);
        let arg = chars_range_to_string(&self.chars, a_start, a_end);
        let (line, column) = position_at(&self.chars, j);
        match interpret_command(document, &name, &arg, line, column) {
            Ok(()) => {
                self.pos = a_end + 1;
                Ok(())
            },
            Err(e) => Err(e),
        }
    }

    /// Parses one paragraph at the current position and appends it, with its
    /// text trimmed and macro-substituted, to the document.
    pub fn parse_paragraph(&mut self, document: &mut Document)
        requires
            old(self).wf(),
            old(self).pos < old(self).chars@.len(),
            old(self).chars@[old(self).pos as int] != '\n',
        ensures
            final(self).chars@ == old(self).chars@,
            final(self).wf(),
            (final(document)@, final(self).pos as int) == paragraph_step_spec(
                old(self).chars@,
                old(self).pos as int,
                old(document)@,
            ),
            final(self).pos > old(self).pos,
    {
        proof {
            lemma_para_end_bounds(self.chars@, self.pos as int + 1);
        }
        let p_end = scan_para_end(&self.chars, self.pos);
        let (lo, hi) = trim_range(&self.chars, self.pos, p_end);
        let raw = chars_range_to_string(&self.chars, lo, hi);
        let text = substitute_macros(raw.as_str(), document);
        document.add_element(DocumentElement::Paragraph(Paragraph { text, style: None }));
        self.pos = p_end;
    }
}

/// Parses the whole input against a macro table seeded before parsing: every
/// seed is visible to later substitutions, and an in-document definition of
/// a seeded name replaces the seed. Commands and paragraphs repeat until the
/// end of input, and the first error aborts the parse with the document
/// discarded.
#[verifier::loop_isolation(false)]
pub fn parse_with_macros(input: &str, macros: Vec<(String, String)>) -> (r: Result<
    Document,
    RustaTexError,
>)
    ensures
        match r {
            Ok(d) => parse_spec(
                input@,
                crate::document::seeded_docspec(crate::document::macros_view(macros@)),
                0,
            ) == Ok::<DocSpec, ErrSpec>(d@),
            Err(e) => parse_spec(
                input@,
                crate::document::seeded_docspec(crate::document::macros_view(macros@)),
                0,
            ) == Err::<DocSpec, ErrSpec>(e@),
        },
{
    let ghost s = input@;
    let ghost doc_start = crate::document::seeded_docspec(
        crate::document::macros_view(macros@),
    );
    let mut parser = RustaTexParser::new(input);
    let mut document = Document {
        title: None,
        author: None,
        date: None,
        elements: Vec::new(),
        macros,
    };
    proof {
        assert(document@.elements =~= Seq::<ElemSpec>::empty());
        assert(document@ == doc_start);
    }
    loop
        invariant
            parser.wf(),
            parser.chars@ == s,
            parse_spec(s, doc_start, 0) == parse_spec(s, document@, parser.pos as int),
        decreases s.len() - parser.pos,
    {
        let ghost pos0 = parser.pos as int;
        let ghost doc0 = document@;
        parser.skip_whitespace();
        let ghost j = parser.pos as int;
        proof {
            lemma_skip_ws_bounds(s, pos0);
            lemma_skip_ws_idempotent(s, pos0);
            assert(parse_spec(s, doc0, pos0) == parse_spec(s, doc0, j));
        }
        if parser.at_end() {
            proof {
                assert(parse_spec(s, doc0, j) == Ok::<DocSpec, ErrSpec>(doc0));
            }
            return Ok(document);
        }
        if parser.chars[parser.pos] == '\\' {
            let ghost doc_before = document@;
            match parser.parse_command(&mut document) {
                Ok(()) => {
                    proof {
                        assert(parse_spec(s, doc_before, j) == parse_spec(
                            s,
                            document@,
                            parser.pos as int,
                        ));
                    }
                },
                Err(e) => {
                    proof {
                        assert(parse_spec(s, doc_before, j) == Err::<DocSpec, ErrSpec>(e@));
                    }
                    return Err(e);
                },
            }
        } else {
            let ghost doc_before = document@;
            proof {
                assert(!is_space_char(s[j]));
            }
            parser.parse_paragraph(&mut document);
            proof {
                assert(parse_spec(s, doc_before, j) == parse_spec(
                    s,
                    document@,
                    parser.pos as int,
                ));
            }
        }
    }
}

/// Parses the whole input with no pre-seeded macros: commands and paragraphs
/// repeat until the end of input, and the first error aborts the parse with
/// the document discarded.
pub fn parse_input(input: &str) -> (r: Result<Document, RustaTexError>)
    ensures
        match r {
            Ok(d) => parse_spec(input@, crate::document::empty_docspec(), 0) == Ok::<
                DocSpec,
                ErrSpec,
            >(d@),
            Err(e) => parse_spec(input@, crate::document::empty_docspec(), 0) == Err::<
                DocSpec,
                ErrSpec,
            >(e@),
        },
{
    let seeds: Vec<(String, String)> = Vec::new();
    proof {
        assert(crate::document::macros_view(seeds@) =~= Seq::<(Seq<char>, Seq<char>)>::empty());
        assert(crate::document::seeded_docspec(crate::document::macros_view(seeds@))
            == crate::document::empty_docspec());
    }
    parse_with_macros(input, seeds)
}

} // verus!
