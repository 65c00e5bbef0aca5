//! Scanning: how program text becomes tokens, and the entry points that scan
//! and run in one go.

use vstd::prelude::*;

use crate::asm_definition::{
    lemma_raised_all_concat, lemma_raised_all_halts, lemma_raised_all_small, tokens_view,
    ASMDefinition, ASTNode, DefView, TokView,
};
use crate::asm_instruction::Instruction;
use crate::asm_value::{int_value, lemma_from_i32, ASMValue};
use crate::number::{
    all_ascii_digits, decimal_value, int_text, lemma_text_then_parse, parse_i32, parses_as_i32,
};
use crate::run::{
    fresh_run, lemma_no_stray_register_accepted, lemma_run_safe_ends, no_stray_register, run_ends,
    run_never_repeats, run_safe, run_spec,
};
use crate::text::{
    all_alphanumeric, all_numeric, chars_to_string, comment_start_from, is_all_alphanumeric,
    is_all_numeric, split_chars, split_spec, string_chars, strip_comment, strip_comment_spec,
    strip_whitespace, strip_ws_spec, trim_end, trim_end_spec,
};

verus! {

/// The report of an instruction word that names no declared instruction.
pub open spec fn unknown_instruction_text(word: Seq<char>) -> Seq<char> {
    word + " is an unknown instruction"@
}

/// The report of an argument that is empty once its whitespace is removed.
pub open spec fn empty_argument_text() -> Seq<char> {
    "Empty argument!"@
}

/// The token for the first word of a line.
pub open spec fn instruction_token(word: Seq<char>) -> TokView {
    TokView::Instruction(strip_ws_spec(word))
}

/// What scanning the first word of a line reports, given the declared
/// instruction names.
pub open spec fn instruction_issues(names: Set<Seq<char>>, word: Seq<char>) -> Seq<Seq<char>> {
    let w = strip_ws_spec(word);
    if names.contains(w) {
        Seq::empty()
    } else {
        seq![unknown_instruction_text(w)]
    }
}

/// What stands between the brackets of `[NAME]`.
pub open spec fn bracket_inner(w: Seq<char>) -> Seq<char> {
    w.subrange(1, w.len() - 1)
}

/// `w` is a register written in brackets: `[`, a non-empty alphanumeric
/// name, `]`.
pub open spec fn is_bracketed_register(w: Seq<char>) -> bool {
    &&& w.len() >= 3
    &&& w[0] == '['
    &&& w.last() == ']'
    &&& all_alphanumeric(bracket_inner(w))
}

/// The token for a later word of a line: once its whitespace is removed, an
/// empty word ends the expression, `[NAME]` names the register `NAME`, a
/// numeric word is an integer, an alphanumeric one names a register, and
/// anything else ends the expression.
pub open spec fn argument_token(word: Seq<char>) -> TokView {
    let w = strip_ws_spec(word);
    if w.len() == 0 {
        TokView::ExprEnd
    } else if is_bracketed_register(w) {
        TokView::Register(bracket_inner(w))
    } else if all_numeric(w) {
        TokView::Value(int_value(decimal_value(w) as i32, false))
    } else if all_alphanumeric(w) {
        TokView::Register(w)
    } else {
        TokView::ExprEnd
    }
}

/// What scanning a later word of a line reports.
pub open spec fn argument_issues(word: Seq<char>) -> Seq<Seq<char>> {
    if strip_ws_spec(word).len() == 0 {
        seq![empty_argument_text()]
    } else {
        Seq::empty()
    }
}

/// A later word of a line can be scanned: a numeric word is an `i32` in
/// ASCII digits, and a word that is not alphanumeric is not in double quotes.
pub open spec fn argument_acceptable(word: Seq<char>) -> bool {
    let w = strip_ws_spec(word);
    ||| w.len() == 0
    ||| is_bracketed_register(w)
    ||| all_numeric(w) && parses_as_i32(w)
    ||| !all_numeric(w) && all_alphanumeric(w)
    ||| !all_numeric(w) && !all_alphanumeric(w) && !(w.first() == '"' && w.last() == '"')
}

/// The tokens of the later words of a line.
pub open spec fn arguments_tokens(words: Seq<Seq<char>>) -> Seq<TokView>
    decreases words.len(),
{
    if words.len() == 0 {
        Seq::empty()
    } else {
        arguments_tokens(words.drop_last()).push(argument_token(words.last()))
    }
}

/// The reports of the later words of a line.
pub open spec fn arguments_issues(words: Seq<Seq<char>>) -> Seq<Seq<char>>
    decreases words.len(),
{
    if words.len() == 0 {
        Seq::empty()
    } else {
        arguments_issues(words.drop_last()) + argument_issues(words.last())
    }
}

/// What of a line counts: the text before its first `;;`, without trailing whitespace.
pub open spec fn line_content(line: Seq<char>) -> Seq<char> {
    trim_end_spec(strip_comment_spec(line))
}

/// The words of a line: its content split at each space.
pub open spec fn line_words(line: Seq<char>) -> Seq<Seq<char>> {
    split_spec(line_content(line), ' ')
}

/// The tokens of a line: none for a line with no content; else the
/// instruction token of the first word, the tokens of the others, and an
/// end-of-expression token.
pub open spec fn line_tokens(line: Seq<char>) -> Seq<TokView> {
    if line_content(line).len() == 0 {
        Seq::empty()
    } else {
        let ws = line_words(line);
        seq![instruction_token(ws[0])] + arguments_tokens(ws.skip(1)) + seq![TokView::ExprEnd]
    }
}

/// The reports of scanning a line, given the declared instruction names.
pub open spec fn line_issues(names: Set<Seq<char>>, line: Seq<char>) -> Seq<Seq<char>> {
    if line_content(line).len() == 0 {
        Seq::empty()
    } else {
        let ws = line_words(line);
        instruction_issues(names, ws[0]) + arguments_issues(ws.skip(1))
    }
}

/// Every later word of the line can be scanned.
pub open spec fn line_acceptable(line: Seq<char>) -> bool {
    line_content(line).len() == 0 || forall|j: int|
        1 <= j < line_words(line).len() ==> argument_acceptable(#[trigger] line_words(line)[j])
}

/// The tokens of a sequence of lines.
pub open spec fn lines_tokens(lines: Seq<Seq<char>>) -> Seq<TokView>
    decreases lines.len(),
{
    if lines.len() == 0 {
        Seq::empty()
    } else {
        lines_tokens(lines.drop_last()) + line_tokens(lines.last())
    }
}

/// The reports of scanning a sequence of lines.
pub open spec fn lines_issues(names: Set<Seq<char>>, lines: Seq<Seq<char>>) -> Seq<Seq<char>>
    decreases lines.len(),
{
    if lines.len() == 0 {
        Seq::empty()
    } else {
        lines_issues(names, lines.drop_last()) + line_issues(names, lines.last())
    }
}

/// The tokens of a program text: those of its lines, one after another.
pub open spec fn scan_tokens(code: Seq<char>) -> Seq<TokView> {
    lines_tokens(split_spec(code, '\n'))
}

/// The reports of scanning a program text, given the declared instruction names.
pub open spec fn scan_issues(names: Set<Seq<char>>, code: Seq<char>) -> Seq<Seq<char>> {
    lines_issues(names, split_spec(code, '\n'))
}

/// Every line of the program text can be scanned.
pub open spec fn scan_acceptable(code: Seq<char>) -> bool {
    forall|i: int|
        0 <= i < split_spec(code, '\n').len() ==> line_acceptable(
            #[trigger] split_spec(code, '\n')[i],
        )
}

impl<I: Instruction> ASMDefinition<I> {
    /// Turns the first word of a line into an instruction token, raising a
    /// halting exception when no such instruction is declared.
    fn match_instruction(&mut self, word: &Vec<char>) -> (r: ASTNode)
        ensures
            r@ == instruction_token(word@),
            final(self)@ == old(self)@.raised_all(
                instruction_issues(old(self)@.instructions.dom(), word@),
            ),
    {
        let w = strip_whitespace(word);
        let name = chars_to_string(&w);
        proof {
            lemma_raised_all_small(self@, unknown_instruction_text(w@));
        }
        if !self.has_instruction(name.as_str()) {
            let mut text = w.clone();
            let mut tail = string_chars(" is an unknown instruction");
            text.append(&mut tail);
            let message = chars_to_string(&text);
            self.raise_exception(message.as_str(), true);
        }
        ASTNode::ASTInstruction(name)
    }

    /// Turns a later word of a line into a token (see [`argument_token`]),
    /// raising a halting exception when it is empty.
    fn match_argument(&mut self, word: &Vec<char>) -> (r: ASTNode)
        requires
            argument_acceptable(word@),
        ensures
            r@ == argument_token(word@),
            final(self)@ == old(self)@.raised_all(argument_issues(word@)),
    {
        let w = strip_whitespace(word);
        proof {
            lemma_raised_all_small(self@, empty_argument_text());
        }
        if w.len() == 0 {
            self.raise_exception("Empty argument!", true);
            return ASTNode::ASTExprEnd;
        }
        if let Some(inner) = bracketed_register(&w) {
            return ASTNode::ASTRegister(chars_to_string(&inner));
        }
        if is_all_numeric(&w) {
            match parse_i32(&w) {
                Some(v) => {
                    proof {
                        lemma_from_i32(v);
                    }
                    return ASTNode::ASTValue(ASMValue::from(v));
                },
                None => {
                    return ASTNode::ASTExprEnd;
                },
            }
        }
        if is_all_alphanumeric(&w) {
            return ASTNode::ASTRegister(chars_to_string(&w));
        }
        ASTNode::ASTExprEnd
    }
}


impl<I: Instruction> ASMDefinition<I> {
    /// Turns program text into tokens. Each line is cut at its first `;;` and
    /// stripped of trailing whitespace; a line with nothing left gives no
    /// tokens; otherwise its words (split at each space) give an instruction
    /// token, a token per later word, and an end-of-expression token. An
    /// undeclared instruction and an empty argument each raise a halting
    /// exception; scanning goes on.
    pub fn scan(&mut self, code: String) -> (output: Vec<ASTNode>)
        requires
            scan_acceptable(code@),
        ensures
            tokens_view(output@) == scan_tokens(code@),
            final(self)@ == old(self)@.raised_all(
                scan_issues(old(self)@.instructions.dom(), code@),
            ),
    {
        let chars = string_chars(code.as_str());
        let lines = split_chars(&chars, '\n');
        let ghost names = old(self)@.instructions.dom();
        let ghost lines_v = lines@.map_values(|p: Vec<char>| p@);
        let mut output: Vec<ASTNode> = Vec::new();
        let n = lines.len();
        assert(tokens_view(output@) == Seq::<TokView>::empty());
        assert(lines_v.take(0) == Seq::<Seq<char>>::empty());
        proof {
            lemma_raised_all_small(self@, Seq::empty());
        }
        for i in 0..n
            invariant
                n == lines@.len(),
                lines_v == lines@.map_values(|p: Vec<char>| p@),
                lines_v == split_spec(code@, '\n'),
                scan_acceptable(code@),
                names == old(self)@.instructions.dom(),
                tokens_view(output@) == lines_tokens(lines_v.take(i as int)),
                self@ == old(self)@.raised_all(lines_issues(names, lines_v.take(i as int))),
        {
            let ghost line = lines_v[i as int];
            proof {
                assert(lines_v.take(i + 1).drop_last() == lines_v.take(i as int));
                assert(lines_v.take(i + 1).last() == line);
                assert(line_acceptable(split_spec(code@, '\n')[i as int]));
                lemma_raised_all_halts(old(self)@, lines_issues(names, lines_v.take(i as int)));
                assert(lines@[i as int]@ == line);
            }
            let ghost toks0 = tokens_view(output@);
            let ghost issues0 = lines_issues(names, lines_v.take(i as int));
            let cut = strip_comment(&lines[i]);
            let content = trim_end(&cut);
            assert(content@ == line_content(line));
            if content.len() == 0 {
                assert(lines_tokens(lines_v.take(i + 1)) == toks0 + Seq::<TokView>::empty());
                assert(toks0 + Seq::<TokView>::empty() == toks0);
                assert(issues0 + Seq::<Seq<char>>::empty() == issues0);
            } else {
                let words = split_chars(&content, ' ');
                let ghost ws = words@.map_values(|p: Vec<char>| p@);
                proof {
                    crate::text::lemma_split_nonempty(content@, ' ');
                }
                let first = self.match_instruction(&words[0]);
                let ghost before = output@;
                output.push(first);
                let ghost head = toks0 + seq![instruction_token(ws[0])];
                let ghost head_issues = issues0 + instruction_issues(names, ws[0]);
                assert(tokens_view(output@) == head) by {
                    assert(output@ == before.push(first));
                }
                proof {
                    lemma_raised_all_concat(old(self)@, issues0, instruction_issues(names, ws[0]));
                    assert(ws.subrange(1, 1) == Seq::<Seq<char>>::empty());
                    assert(head + arguments_tokens(ws.subrange(1, 1)) == head);
                    assert(head_issues + arguments_issues(ws.subrange(1, 1)) == head_issues);
                }
                let m = words.len();
                for j in 1..m
                    invariant
                        m == words@.len(),
                        m >= 1,
                        ws == words@.map_values(|p: Vec<char>| p@),
                        ws == line_words(line),
                        line_content(line).len() > 0,
                        line_acceptable(line),
                        tokens_view(output@) == head + arguments_tokens(ws.subrange(1, j as int)),
                        self@ == old(self)@.raised_all(
                            head_issues + arguments_issues(ws.subrange(1, j as int)),
                        ),
                {
                    proof {
                        assert(ws.subrange(1, j + 1).drop_last() == ws.subrange(1, j as int));
                        assert(ws.subrange(1, j + 1).last() == ws[j as int]);
                        assert(argument_acceptable(line_words(line)[j as int]));
                        lemma_raised_all_concat(
                            old(self)@,
                            head_issues + arguments_issues(ws.subrange(1, j as int)),
                            argument_issues(ws[j as int]),
                        );
                        assert(head_issues + arguments_issues(ws.subrange(1, j as int))
                            + argument_issues(ws[j as int]) == head_issues + arguments_issues(
                            ws.subrange(1, j + 1),
                        ));
                    }
                    let token = self.match_argument(&words[j]);
                    let ghost before = output@;
                    output.push(token);
                    assert(tokens_view(output@) == head + arguments_tokens(ws.subrange(1, j + 1))) by {
                        assert(output@ == before.push(token));
                        assert(tokens_view(output@) == tokens_view(before).push(token@));
                        assert(arguments_tokens(ws.subrange(1, j + 1)) == arguments_tokens(
                            ws.subrange(1, j as int),
                        ).push(argument_token(ws[j as int])));
                        assert(head + arguments_tokens(ws.subrange(1, j as int)).push(
                            argument_token(ws[j as int]),
                        ) == (head + arguments_tokens(ws.subrange(1, j as int))).push(
                            argument_token(ws[j as int]),
                        ));
                    }
                }
                let ghost before = output@;
                output.push(ASTNode::ASTExprEnd);
                proof {
                    assert(ws.subrange(1, m as int) == ws.skip(1));
                    assert(output@ == before.push(ASTNode::ASTExprEnd));
                    assert(tokens_view(output@) == tokens_view(before).push(TokView::ExprEnd));
                    assert(line_tokens(line) == seq![instruction_token(ws[0])] + arguments_tokens(
                        ws.skip(1),
                    ) + seq![TokView::ExprEnd]);
                    assert(tokens_view(output@) == toks0 + line_tokens(line));
                    assert(head_issues + arguments_issues(ws.skip(1)) == issues0 + line_issues(
                        names,
                        line,
                    ));
                }
            }
        }
        assert(lines_v.take(n as int) == lines_v);
        output
    }

    /// Scans `code` and runs the tokens.
    pub fn interpret(&mut self, code: String)
        requires
            scan_acceptable(code@),
            run_never_repeats(
                old(self)@.raised_all(scan_issues(old(self)@.instructions.dom(), code@)),
                scan_tokens(code@),
            ),
        ensures
            exists|outcomes: Seq<DefView<I>>|
                run_spec(
                    old(self)@.raised_all(scan_issues(old(self)@.instructions.dom(), code@)),
                    fresh_run(),
                    scan_tokens(code@),
                    0,
                    outcomes,
                ) == Some(final(self)@),
    {
        let ast = self.scan(code);
        proof {
            lemma_raised_all_halts(old(self)@, scan_issues(old(self)@.instructions.dom(), code@));
        }
        self.run(ast);
    }
}

/// The register name of `w` when `w` is `[NAME]` (see [`is_bracketed_register`]).
fn bracketed_register(w: &Vec<char>) -> (r: Option<Vec<char>>)
    ensures
        r is Some <==> is_bracketed_register(w@),
        r matches Some(inner) ==> inner@ == bracket_inner(w@),
{
    let n = w.len();
    if n < 3 || w[0] != '[' || w[n - 1] != ']' {
        return None;
    }
    let mut inner: Vec<char> = Vec::new();
    for k in 1..n - 1
        invariant
            n == w@.len(),
            n >= 3,
            inner@ == w@.subrange(1, k as int),
    {
        inner.push(w[k]);
        assert(w@.subrange(1, k + 1) == w@.subrange(1, k as int).push(w@[k as int]));
    }
    if is_all_alphanumeric(&inner) {
        Some(inner)
    } else {
        None
    }
}

/// Whether the later word `word` of a line can be scanned.
fn argument_is_acceptable(word: &Vec<char>) -> (r: bool)
    ensures
        r == argument_acceptable(word@),
{
    let w = strip_whitespace(word);
    if w.len() == 0 {
        return true;
    }
    if bracketed_register(&w).is_some() {
        return true;
    }
    if is_all_numeric(&w) {
        return parse_i32(&w).is_some();
    }
    if is_all_alphanumeric(&w) {
        return true;
    }
    !(w[0] == '"' && w[w.len() - 1] == '"')
}

/// Whether every line of `code` can be scanned (see [`scan_acceptable`]).
pub fn scan_is_acceptable(code: &String) -> (r: bool)
    ensures
        r == scan_acceptable(code@),
{
    let chars = string_chars(code.as_str());
    let lines = split_chars(&chars, '\n');
    let ghost lines_v = lines@.map_values(|p: Vec<char>| p@);
    let n = lines.len();
    for i in 0..n
        invariant
            n == lines@.len(),
            lines_v == lines@.map_values(|p: Vec<char>| p@),
            lines_v == split_spec(code@, '\n'),
            forall|k: int| 0 <= k < i ==> line_acceptable(#[trigger] lines_v[k]),
    {
        let ghost line = lines_v[i as int];
        assert(lines@[i as int]@ == line);
        let cut = strip_comment(&lines[i]);
        let content = trim_end(&cut);
        assert(content@ == line_content(line));
        if content.len() > 0 {
            let words = split_chars(&content, ' ');
            let ghost ws = words@.map_values(|p: Vec<char>| p@);
            proof {
                crate::text::lemma_split_nonempty(content@, ' ');
            }
            let m = words.len();
            for j in 1..m
                invariant
                    m == words@.len(),
                    ws == words@.map_values(|p: Vec<char>| p@),
                    ws == line_words(line),
                    line_content(line).len() > 0,
                    0 <= i < lines_v.len(),
                    line == lines_v[i as int],
                    lines_v == split_spec(code@, '\n'),
                    forall|k: int| 1 <= k < j ==> argument_acceptable(#[trigger] ws[k]),
            {
                assert(words@[j as int]@ == ws[j as int]);
                if !argument_is_acceptable(&words[j]) {
                    assert(!argument_acceptable(line_words(line)[j as int]));
                    assert(!line_acceptable(line));
                    assert(!line_acceptable(split_spec(code@, '\n')[i as int]));
                    return false;
                }
            }
            assert(line_acceptable(line));
        }
    }
    assert forall|k: int| 0 <= k < split_spec(code@, '\n').len() implies line_acceptable(
        #[trigger] split_spec(code@, '\n')[k],
    ) by {
        assert(line_acceptable(lines_v[k]));
    }
    true
}

impl<I: Instruction> ASMDefinition<I> {
    /// Interprets `code` where that ends without failing: `false`, with
    /// nothing done, when some line of `code` cannot be scanned; `false`,
    /// after scanning, when running the tokens could meet a register token
    /// outside any instruction (the run would not end, see [`run_safe`]);
    /// otherwise `true`, after scanning and running.
    pub fn interpret_checked(&mut self, code: String) -> (r: bool)
        ensures
            r == (scan_acceptable(code@) && run_safe(
                old(self)@.raised_all(scan_issues(old(self)@.instructions.dom(), code@)),
                false,
                scan_tokens(code@),
                0,
            )),
            !scan_acceptable(code@) ==> final(self)@ == old(self)@,
            scan_acceptable(code@) && !r ==> final(self)@ == old(self)@.raised_all(
                scan_issues(old(self)@.instructions.dom(), code@),
            ),
            r ==> exists|outcomes: Seq<DefView<I>>|
                run_spec(
                    old(self)@.raised_all(scan_issues(old(self)@.instructions.dom(), code@)),
                    fresh_run(),
                    scan_tokens(code@),
                    0,
                    outcomes,
                ) == Some(final(self)@),
            scan_acceptable(code@) && no_stray_register(scan_tokens(code@)) ==> r,
    {
        proof {
            if no_stray_register(scan_tokens(code@)) {
                lemma_no_stray_register_accepted(
                    old(self)@.raised_all(scan_issues(old(self)@.instructions.dom(), code@)),
                    scan_tokens(code@),
                );
            }
        }
        if !scan_is_acceptable(&code) {
            return false;
        }
        let ast = self.scan(code);
        proof {
            lemma_raised_all_halts(old(self)@, scan_issues(old(self)@.instructions.dom(), code@));
        }
        if !self.run_terminates(&ast) {
            return false;
        }
        proof {
            assert forall|outcomes: Seq<DefView<I>>|
                #[trigger] run_ends(self@, fresh_run(), tokens_view(ast@), 0, outcomes) by {
                lemma_run_safe_ends(self@, fresh_run(), tokens_view(ast@), 0, outcomes);
            }
        }
        self.run(ast);
        true
    }
}

proof fn lemma_comment_start_after(l: Seq<char>, c: Seq<char>, i: int)
    requires
        0 <= i <= l.len(),
        forall|k: int| 0 <= k < l.len() ==> l[k] != ';',
    ensures
        comment_start_from(l + ";;"@ + c, i) == l.len(),
    decreases l.len() - i,
{
    let s = l + ";;"@ + c;
    reveal_strlit(";;");
    if i < l.len() {
        assert(s[i] == l[i]);
        lemma_comment_start_after(l, c, i + 1);
    } else {
        assert(s[i] == ';');
        assert(s[i + 1] == ';');
    }
}

/// Everything from `;;` to the end of a line is a comment: a line whose text
/// before the comment holds no `;` scans as that text alone does.
pub proof fn lemma_comment_ignored(l: Seq<char>, c: Seq<char>, names: Set<Seq<char>>)
    requires
        forall|k: int| 0 <= k < l.len() ==> l[k] != ';',
    ensures
        line_content(l + ";;"@ + c) == line_content(l),
        line_tokens(l + ";;"@ + c) == line_tokens(l),
        line_issues(names, l + ";;"@ + c) == line_issues(names, l),
{
    let s = l + ";;"@ + c;
    lemma_comment_start_after(l, c, 0);
    lemma_comment_start_no_pair(l, 0);
    assert(s.take(l.len() as int) == l);
    assert(l.take(l.len() as int) == l);
}

proof fn lemma_comment_start_no_pair(l: Seq<char>, i: int)
    requires
        0 <= i,
        forall|k: int| 0 <= k < l.len() ==> l[k] != ';',
    ensures
        comment_start_from(l, i) == l.len(),
    decreases l.len() - i,
{
    if i + 1 < l.len() {
        lemma_comment_start_no_pair(l, i + 1);
    }
}

/// A digit string holds no whitespace, so removing whitespace keeps it.
proof fn lemma_digits_keep_whitespace(w: Seq<char>)
    requires
        all_ascii_digits(w),
    ensures
        strip_ws_spec(w) == w,
    decreases w.len(),
{
    if w.len() > 0 {
        assert(all_ascii_digits(w.drop_last())) by {
            assert forall|i: int| 0 <= i < w.drop_last().len() implies crate::number::is_ascii_digit(
                #[trigger] w.drop_last()[i],
            ) by {
                assert(w.drop_last()[i] == w[i]);
            }
        }
        lemma_digits_keep_whitespace(w.drop_last());
        assert(crate::number::is_ascii_digit(w[w.len() - 1]));
        assert(w.drop_last().push(w.last()) =~= w);
    }
}

/// Scanning a non-negative `i32` written in decimal, as an argument, gives a
/// value token holding exactly that number (belonging to no definition), and
/// the word is accepted.
pub proof fn lemma_number_word_reads_back(v: i32)
    requires
        v >= 0,
    ensures
        argument_acceptable(int_text(v as int)),
        argument_token(int_text(v as int)) == TokView::Value(int_value(v, false)),
{
    let w = int_text(v as int);
    lemma_text_then_parse(v);
    lemma_digits_keep_whitespace(w);
    assert(all_numeric(w)) by {
        assert forall|i: int| 0 <= i < w.len() implies crate::text::char_is_numeric(#[trigger] w[i]) by {
            assert(crate::number::is_ascii_digit(w[i]));
        }
    }
    assert(crate::number::is_ascii_digit(w[0]));
    assert(!is_bracketed_register(w));
    assert(decimal_value(w) as i32 == v);
}

/// An argument word whose text, once whitespace is removed, is a run of
/// ASCII digits that `str::parse::<i32>` accepts becomes a value token holding
/// exactly the number those digits spell in base ten.
pub proof fn lemma_number_word_value(word: Seq<char>)
    requires
        parses_as_i32(strip_ws_spec(word)),
    ensures
        argument_acceptable(word),
        argument_token(word) matches TokView::Value(x) && x == int_value(x.holder->Int_0, false)
            && x.holder->Int_0 == decimal_value(strip_ws_spec(word)),
{
    let w = strip_ws_spec(word);
    crate::number::lemma_decimal_value_nonneg(w);
    assert(all_numeric(w)) by {
        assert forall|i: int| 0 <= i < w.len() implies crate::text::char_is_numeric(#[trigger] w[i]) by {
            assert(crate::number::is_ascii_digit(w[i]));
        }
    }
    assert(crate::number::is_ascii_digit(w[0]));
    assert(!is_bracketed_register(w));
}

} // verus!
