//! The text of a sequence of signs scans to the tokens of the signs.

use crate::parser::grammar::adjacent;
use crate::parser::printer::digit_char;
use crate::parser::printer::digits_of;
use crate::parser::printer::is_word;
use crate::parser::printer::kind_text;
use crate::parser::printer::render;
use crate::parser::printer::short_text;
use crate::parser::printer::Sign;
use crate::scan::digits_len;
use crate::scan::digits_value;
use crate::scan::ends_run;
use crate::scan::ends_word;
use crate::scan::eof_token;
use crate::scan::followed_by;
use crate::scan::is_decimal;
use crate::scan::is_digit;
use crate::scan::is_integer;
use crate::scan::long_token;
use crate::scan::run_len;
use crate::scan::scan_from;
use crate::scan::short_token;
use crate::scan::span_between;
use crate::scan::step_at;
use crate::scan::Run;
use crate::scan::Step;
use crate::scan::TokenKind;
use crate::scan::TokenModel;
use crate::text::byte_length;
use crate::text::byte_offset;
use crate::text::byte_offset_monotonic;
use vstd::prelude::*;

verus! {

/// Whether `word` can be written as one word: it is not empty, and none of
/// its characters ends a word.
pub open spec fn valid_word(word: Seq<char>) -> bool {
    word.len() > 0 && forall|i: int| 0 <= i < word.len() ==> !ends_word(#[trigger] word[i])
}

/// Whether a token of the kind `kind` is a token by its one character.
pub open spec fn is_short(kind: TokenKind) -> bool {
    short_token(short_text(kind)) == Some(kind)
}

/// Whether the text of a token of the kind `kind` scans to that token.
pub open spec fn writable(kind: TokenKind) -> bool {
    match kind {
        TokenKind::Ident(name) => valid_word(name) && long_token(name) == TokenKind::Ident(name),
        TokenKind::Float(text) => valid_word(text) && long_token(text) == TokenKind::Float(text),
        TokenKind::Int(value) => value >= 0,
        TokenKind::String(text) => forall|i: int| 0 <= i < text.len() ==> #[trigger] text[i] != '"',
        TokenKind::Eof => false,
        _ => true,
    }
}

/// The digits of a number are digits.
pub proof fn digits_are_decimal(value: nat)
    ensures
        digits_of(value).len() > 0,
        forall|i: int| 0 <= i < digits_of(value).len() ==> is_digit(#[trigger] digits_of(value)[i]),
        digits_value(digits_of(value)) == value,
    decreases value,
{
    if value >= 10 {
        digits_are_decimal(value / 10);
        let shorter = digits_of(value / 10);
        let digits = shorter.push(digit_char(value % 10));
        assert(digits.drop_last() =~= shorter);
        assert forall|i: int| 0 <= i < digits.len() implies is_digit(#[trigger] digits[i]) by {
            if i < shorter.len() {
                assert(digits[i] == shorter[i]);
            }
        }
    } else {
        let digits = seq![digit_char(value)];
        assert(digits.drop_last() =~= Seq::<char>::empty());
        assert(digits_value(digits.drop_last()) == 0);
    }
}

/// A run of digits from `from` to the end of a word of digits.
pub proof fn digits_run_to_the_end(word: Seq<char>, from: int)
    requires
        0 <= from <= word.len(),
        forall|i: int| 0 <= i < word.len() ==> is_digit(#[trigger] word[i]),
    ensures
        digits_len(word, from) == word.len() - from,
    decreases word.len() - from,
{
    if from < word.len() {
        assert(is_digit(word[from]));
        digits_run_to_the_end(word, from + 1);
    }
}

/// A word of digits is a valid word without a point, and no keyword.
pub proof fn digits_are_a_word(word: Seq<char>)
    requires
        word.len() > 0,
        forall|i: int| 0 <= i < word.len() ==> is_digit(#[trigger] word[i]),
    ensures
        valid_word(word),
        !word.contains('.'),
        long_token(word) == (if digits_value(word) <= i64::MAX {
            TokenKind::Int(digits_value(word) as i64)
        } else {
            TokenKind::Ident(word)
        }),
{
    assert forall|i: int| 0 <= i < word.len() implies !ends_word(#[trigger] word[i]) by {
        assert(is_digit(word[i]));
    }
    if word.contains('.') {
        let at = choose|i: int| 0 <= i < word.len() && word[i] == '.';
        assert(is_digit(word[at]));
    }
    assert(is_digit(word[0]));
    reveal_strlit("if");
    reveal_strlit("then");
    reveal_strlit("else");
    reveal_strlit("let");
    reveal_strlit("in");
    reveal_strlit("True");
    reveal_strlit("False");
    assert(word != "if"@) by {
        assert("if"@[0] == 'i');
    }
    assert(word != "then"@) by {
        assert("then"@[0] == 't');
    }
    assert(word != "else"@) by {
        assert("else"@[0] == 'e');
    }
    assert(word != "let"@) by {
        assert("let"@[0] == 'l');
    }
    assert(word != "in"@) by {
        assert("in"@[0] == 'i');
    }
    assert(word != "True"@) by {
        assert("True"@[0] == 'T');
    }
    assert(word != "False"@) by {
        assert("False"@[0] == 'F');
    }
    digits_run_to_the_end(word, 0);
}

/// The text of a token that is written as a word is a valid word that
/// scans to the token.
pub proof fn word_text_scans(kind: TokenKind)
    requires
        is_word(kind),
        writable(kind),
    ensures
        valid_word(kind_text(kind)),
        long_token(kind_text(kind)) == kind,
{
    reveal_strlit("if");
    reveal_strlit("then");
    reveal_strlit("else");
    reveal_strlit("let");
    reveal_strlit("in");
    reveal_strlit("True");
    reveal_strlit("False");
    let word = kind_text(kind);
    match kind {
        TokenKind::Int(value) => {
            digits_are_decimal(value as nat);
            digits_are_a_word(word);
        },
        TokenKind::Ident(_) => {},
        TokenKind::Float(_) => {},
        _ => {
            assert(word.len() >= 2);
            assert(!ends_word(word[0]));
            assert(!ends_word(word[1]));
            assert forall|i: int| 0 <= i < word.len() implies !ends_word(#[trigger] word[i]) by {
                if i == 2 {
                    assert(!ends_word(word[2]));
                } else if i == 3 {
                    assert(!ends_word(word[3]));
                } else if i == 4 {
                    assert(!ends_word(word[4]));
                }
            }
            assert("if"@[1] == 'f');
            assert("in"@[1] == 'n');
            assert("then"@[0] == 't');
            assert("else"@[0] == 'e');
            assert("True"@[0] == 'T');
            assert("let"@[0] == 'l');
            assert("False"@[0] == 'F');
        },
    }
}

/// A run of `count` characters that do not end it, with the end of the
/// text or a character that ends it behind them, is `count` long.
pub proof fn run_exact(text: Seq<char>, from: int, count: nat, run: Run)
    requires
        0 <= from,
        from + count <= text.len(),
        forall|j: int| 0 <= j < count ==> !ends_run(run, #[trigger] text[from + j]),
        from + count == text.len() || ends_run(run, text[from + count]),
    ensures
        run_len(text, from, run) == count,
    decreases count,
{
    if count > 0 {
        assert(!ends_run(run, text[from + 0]));
        assert forall|j: int| 0 <= j < count - 1 implies !ends_run(
            run,
            #[trigger] text[from + 1 + j],
        ) by {
            assert(!ends_run(run, text[from + (j + 1)]));
        }
        run_exact(text, from + 1, (count - 1) as nat, run);
    }
}

/// Every token that can be written is written as a word, as a string, as
/// a line end or as one character.
pub proof fn kinds_of_tokens(kind: TokenKind)
    requires
        writable(kind),
    ensures
        is_word(kind) || kind is String || kind is NewLine || is_short(kind),
        is_short(kind) ==> kind_text(kind) == seq![short_text(kind)] && !is_word(kind),
{
}

/// The token of the kind `kind` whose text stands at `at` in `text`.
pub open spec fn token_at(text: Seq<char>, at: int, kind: TokenKind) -> TokenModel {
    TokenModel { kind, span: span_between(text, at, at + kind_text(kind).len()) }
}

/// Whether the text of a token of the kind `kind` stands at `at` in
/// `text`.
pub open spec fn stands_at(text: Seq<char>, at: int, kind: TokenKind) -> bool {
    &&& 0 <= at
    &&& at + kind_text(kind).len() <= text.len()
    &&& text.subrange(at, at + kind_text(kind).len()) == kind_text(kind)
}

/// Where the text of a word stands with a blank behind it, the lexer
/// hands out the token of the word and goes on at the blank.
pub proof fn step_of_word(text: Seq<char>, at: int, kind: TokenKind)
    requires
        is_word(kind),
        writable(kind),
        stands_at(text, at, kind),
        at + kind_text(kind).len() < text.len(),
        text[at + kind_text(kind).len()] == ' ',
    ensures
        step_at(text, at) == (Step::Emit {
            token: token_at(text, at, kind),
            next: at + kind_text(kind).len(),
        }),
{
    reveal(step_at);
    word_text_scans(kind);
    let word = kind_text(kind);
    let count = word.len() as int;
    assert forall|j: int| 0 <= j < count implies text[at + j] == word[j] by {
        assert(text.subrange(at, at + count)[j] == text[at + j]);
    }
    assert(text[at] == word[0]);
    assert(!ends_word(word[0]));
    assert forall|j: int| 0 <= j < count - 1 implies !ends_run(
        Run::Word,
        #[trigger] text[at + 1 + j],
    ) by {
        assert(text[at + 1 + j] == word[j + 1]);
        assert(!ends_word(word[j + 1]));
    }
    run_exact(text, at + 1, (count - 1) as nat, Run::Word);
}

/// Where the text of a string literal stands, the lexer hands out the
/// token of the literal and goes on behind it.
pub proof fn step_of_string(text: Seq<char>, at: int, kind: TokenKind)
    requires
        kind is String,
        writable(kind),
        stands_at(text, at, kind),
    ensures
        step_at(text, at) == (Step::Emit {
            token: token_at(text, at, kind),
            next: at + kind_text(kind).len(),
        }),
{
    reveal(step_at);
    let inner = kind->String_0;
    let whole = kind_text(kind);
    let count = inner.len() as int;
    assert(whole.len() == count + 2);
    assert forall|j: int| 0 <= j < count + 2 implies text[at + j] == whole[j] by {
        assert(text.subrange(at, at + count + 2)[j] == text[at + j]);
    }
    assert(text[at] == whole[0]);
    assert(whole[0] == '"');
    assert forall|j: int| 0 <= j < count implies !ends_run(
        Run::Quoted,
        #[trigger] text[at + 1 + j],
    ) by {
        assert(text[at + 1 + j] == whole[j + 1]);
        assert(whole[j + 1] == inner[j]);
    }
    assert(text[at + 1 + count] == whole[count + 1]);
    assert(whole[count + 1] == '"');
    run_exact(text, at + 1, count as nat, Run::Quoted);
    assert(text.subrange(at + 1, at + 1 + count) =~= inner) by {
        assert forall|j: int| 0 <= j < count implies text.subrange(at + 1, at + 1 + count)[j]
            == inner[j] by {
            assert(text[at + 1 + j] == whole[j + 1]);
        }
    }
}

/// Where the character of a token stands, or a line end, the lexer hands
/// out the token and goes on behind it.
pub proof fn step_of_character(text: Seq<char>, at: int, kind: TokenKind)
    requires
        is_short(kind) || kind is NewLine,
        stands_at(text, at, kind),
    ensures
        step_at(text, at) == (Step::Emit { token: token_at(text, at, kind), next: at + 1 }),
        kind_text(kind).len() == 1,
{
    reveal(step_at);
    let whole = kind_text(kind);
    assert(whole.len() == 1);
    assert(text.subrange(at, at + 1)[0] == text[at]);
    assert(text[at] == whole[0]);
}

/// At a blank the lexer hands out nothing and goes on behind it.
pub proof fn step_of_blank(text: Seq<char>, at: int)
    requires
        0 <= at < text.len(),
        text[at] == ' ',
    ensures
        step_at(text, at) == (Step::Skip { next: at + 1 }),
{
    reveal(step_at);
}

/// The number of characters that a sign takes in the text: those of its
/// token, and the blank behind it if it has one.
pub open spec fn sign_len(sign: Sign) -> int {
    kind_text(sign.kind).len() + if sign.glued {
        0int
    } else {
        1int
    }
}

/// Whether the signs `signs` can be written: every token can, and where a
/// token follows another at once, both are tokens by one character.
pub open spec fn valid_signs(signs: Seq<Sign>) -> bool
    decreases signs.len(),
{
    if signs.len() == 0 {
        true
    } else {
        &&& writable(signs[0].kind)
        &&& signs[0].glued ==> is_short(signs[0].kind) && signs.len() > 1 && is_short(signs[1].kind)
        &&& valid_signs(signs.drop_first())
    }
}

/// The tokens of the signs `signs`, whose text stands at `at` in `text`
/// and runs to its end.
pub open spec fn lexed(text: Seq<char>, at: int, signs: Seq<Sign>) -> Seq<TokenModel>
    decreases signs.len(),
{
    if signs.len() == 0 {
        seq![eof_token(text)]
    } else {
        seq![token_at(text, at, signs[0].kind)] + lexed(
            text,
            at + sign_len(signs[0]),
            signs.drop_first(),
        )
    }
}

/// Whether the text of `signs` stands at `at` in `text` and runs to its
/// end.
pub open spec fn renders_at(text: Seq<char>, at: int, signs: Seq<Sign>) -> bool {
    0 <= at <= text.len() && text.subrange(at, text.len() as int) == render(signs)
}

/// Where the text of signs stands, the text of the first stands, and
/// behind it a blank, unless the sign is glued, and the text of the
/// others.
pub proof fn renders_behind(text: Seq<char>, at: int, signs: Seq<Sign>)
    requires
        renders_at(text, at, signs),
        signs.len() > 0,
    ensures
        stands_at(text, at, signs[0].kind),
        at + sign_len(signs[0]) <= text.len(),
        !signs[0].glued ==> text[at + kind_text(signs[0].kind).len()] == ' ',
        renders_at(text, at + sign_len(signs[0]), signs.drop_first()),
{
    let whole = render(signs);
    let word = kind_text(signs[0].kind);
    let blank = if signs[0].glued {
        Seq::<char>::empty()
    } else {
        seq![' ']
    };
    let rest = render(signs.drop_first());
    assert(whole == word + blank + rest);
    let end = text.len() as int;
    assert(text.subrange(at, end).len() == whole.len());
    assert forall|j: int| 0 <= j < whole.len() implies text[at + j] == whole[j] by {
        assert(text.subrange(at, end)[j] == text[at + j]);
    }
    assert(text.subrange(at, at + word.len()) =~= word) by {
        assert forall|j: int| 0 <= j < word.len() implies text.subrange(at, at + word.len())[j]
            == word[j] by {
            assert(text[at + j] == whole[j]);
        }
    }
    if !signs[0].glued {
        assert(text[at + word.len()] == whole[word.len() as int]);
    }
    let next = at + sign_len(signs[0]);
    assert(text.subrange(next, end) =~= rest) by {
        assert forall|j: int| 0 <= j < rest.len() implies text.subrange(next, end)[j] == rest[j] by {
            assert(text[next + j] == whole[next - at + j]);
        }
    }
}

/// The text of signs scans to the tokens of the signs.
pub proof fn signs_scan(text: Seq<char>, at: int, signs: Seq<Sign>)
    requires
        valid_signs(signs),
        renders_at(text, at, signs),
    ensures
        scan_from(text, at) == Ok::<Seq<TokenModel>, crate::scan::ScannerError>(
            lexed(text, at, signs),
        ),
    decreases signs.len(),
{
    if signs.len() == 0 {
        assert(render(signs).len() == 0);
        assert(text.subrange(at, text.len() as int).len() == 0);
    } else {
        let kind = signs[0].kind;
        let count = kind_text(kind).len() as int;
        renders_behind(text, at, signs);
        kinds_of_tokens(kind);
        let next = at + sign_len(signs[0]);
        signs_scan(text, next, signs.drop_first());
        if is_word(kind) {
            step_of_word(text, at, kind);
            word_text_scans(kind);
        } else if kind is String {
            step_of_string(text, at, kind);
        } else {
            step_of_character(text, at, kind);
        }
        assert(count > 0);
        if !signs[0].glued {
            step_of_blank(text, at + count);
            assert(scan_from(text, at + count) == scan_from(text, next));
        }
        assert(step_at(text, at) == (Step::Emit {
            token: token_at(text, at, kind),
            next: at + count,
        }));
        assert(scan_from(text, at) == followed_by(
            seq![token_at(text, at, kind)],
            scan_from(text, at + count),
        ));
    }
}

/// Whether the tokens of `tokens` from the index `from` on are those of
/// `signs`: of the same kinds, and touching each other exactly where a
/// sign is glued to the next.
pub open spec fn written(tokens: Seq<TokenModel>, from: int, signs: Seq<Sign>) -> bool
    decreases signs.len(),
{
    if signs.len() == 0 {
        true
    } else {
        &&& 0 <= from
        &&& from + 1 < tokens.len()
        &&& tokens[from].kind == signs[0].kind
        &&& adjacent(tokens, from) == signs[0].glued
        &&& written(tokens, from + 1, signs.drop_first())
    }
}

/// The first token of the tokens of signs starts where the text of the
/// signs starts.
pub proof fn lexed_starts(text: Seq<char>, at: int, signs: Seq<Sign>)
    requires
        renders_at(text, at, signs),
    ensures
        lexed(text, at, signs).len() == signs.len() + 1,
        lexed(text, at, signs)[0].span.start == byte_offset(text, at) as usize,
        lexed(text, at, signs).last() == eof_token(text),
    decreases signs.len(),
{
    if signs.len() == 0 {
        assert(render(signs).len() == 0);
        assert(text.subrange(at, text.len() as int).len() == 0);
    } else {
        renders_behind(text, at, signs);
        lexed_starts(text, at + sign_len(signs[0]), signs.drop_first());
    }
}

/// The tokens of signs, behind any tokens, are written as the signs say.
pub proof fn lexed_is_written(
    before: Seq<TokenModel>,
    text: Seq<char>,
    at: int,
    signs: Seq<Sign>,
)
    requires
        valid_signs(signs),
        renders_at(text, at, signs),
        byte_length(text) <= usize::MAX,
    ensures
        written(before + lexed(text, at, signs), before.len() as int, signs),
    decreases signs.len(),
{
    if signs.len() > 0 {
        let kind = signs[0].kind;
        let count = kind_text(kind).len() as int;
        let next = at + sign_len(signs[0]);
        let first = token_at(text, at, kind);
        let rest = lexed(text, next, signs.drop_first());
        let tokens = before + lexed(text, at, signs);
        renders_behind(text, at, signs);
        kinds_of_tokens(kind);
        lexed_starts(text, next, signs.drop_first());
        lexed_is_written(before.push(first), text, next, signs.drop_first());
        assert(before.push(first) + rest =~= tokens);
        let from = before.len() as int;
        assert(tokens[from] == first);
        assert(tokens[from + 1] == rest[0]);
        byte_offset_monotonic(text, at + count, next);
        byte_offset_monotonic(text, next, text.len() as int);
        if is_word(kind) {
            word_text_scans(kind);
        }
        assert(count > 0);
        if !signs[0].glued {
            assert(byte_offset(text, next) == byte_offset(text, at + count)
                + crate::text::utf8_width(text[at + count]));
        }
    }
}

/// The signs of `first` followed by those of `second` are written where
/// those of `first` are and, behind them, those of `second`.
pub proof fn written_apart(
    tokens: Seq<TokenModel>,
    from: int,
    first: Seq<Sign>,
    second: Seq<Sign>,
)
    ensures
        written(tokens, from, first + second) <==> written(tokens, from, first) && written(
            tokens,
            from + first.len(),
            second,
        ),
    decreases first.len(),
{
    if first.len() == 0 {
        assert(first + second =~= second);
    } else {
        assert((first + second).drop_first() =~= first.drop_first() + second);
        written_apart(tokens, from + 1, first.drop_first(), second);
    }
}

/// Where signs are written, the token of every one of them is of its
/// kind, touches the next token exactly if the sign is glued, and is not
/// the last token.
pub proof fn written_token(tokens: Seq<TokenModel>, from: int, signs: Seq<Sign>, index: int)
    requires
        written(tokens, from, signs),
        0 <= index < signs.len(),
    ensures
        0 <= from + index,
        from + index + 1 < tokens.len(),
        tokens[from + index].kind == signs[index].kind,
        adjacent(tokens, from + index) == signs[index].glued,
    decreases index,
{
    if index > 0 {
        written_token(tokens, from + 1, signs.drop_first(), index - 1);
    }
}

/// No character of a run ends it.
pub proof fn run_holds_no_end(text: Seq<char>, from: int, run: Run, index: int)
    requires
        0 <= from,
        0 <= index < run_len(text, from, run),
    ensures
        from + index < text.len(),
        !ends_run(run, text[from + index]),
    decreases index,
{
    if index > 0 {
        run_holds_no_end(text, from + 1, run, index - 1);
    }
}

/// A token that a step hands out can be written.
pub proof fn emitted_token_is_writable(src: Seq<char>, from: int)
    requires
        0 <= from < src.len(),
    ensures
        step_at(src, from) matches Step::Emit { token, next } ==> writable(token.kind),
{
    reveal(step_at);
    if src[from] == '"' {
        let close = from + 1 + run_len(src, from + 1, Run::Quoted);
        if close < src.len() {
            let inner = src.subrange(from + 1, close);
            assert forall|i: int| 0 <= i < inner.len() implies #[trigger] inner[i] != '"' by {
                run_holds_no_end(src, from + 1, Run::Quoted, i);
            }
        }
    } else if !ends_word(src[from]) {
        crate::scan::run_stays_inside(src, from + 1, Run::Word);
        let end = from + 1 + run_len(src, from + 1, Run::Word);
        let word = src.subrange(from, end);
        assert forall|i: int| 0 <= i < word.len() implies !ends_word(#[trigger] word[i]) by {
            if i > 0 {
                run_holds_no_end(src, from + 1, Run::Word, i - 1);
            }
        }
        assert(valid_word(word));
    }
}

/// Every token of a source but the last can be written.
pub proof fn scanned_tokens_are_writable(src: Seq<char>, from: int)
    requires
        0 <= from,
    ensures
        scan_from(src, from) matches Ok(tokens) ==> forall|i: int|
            0 <= i < tokens.len() - 1 ==> writable(#[trigger] tokens[i].kind),
    decreases
            if from < src.len() {
                src.len() - from
            } else {
                0
            },
{
    if from < src.len() {
        crate::scan::step_stays_inside(src, from);
        emitted_token_is_writable(src, from);
        match step_at(src, from) {
            Step::Skip { next } => {
                scanned_tokens_are_writable(src, next);
            },
            Step::Emit { token, next } => {
                scanned_tokens_are_writable(src, next);
                if let Ok(rest) = scan_from(src, next) {
                    let tokens = seq![token] + rest;
                    assert forall|i: int| 0 <= i < tokens.len() - 1 implies writable(
                        #[trigger] tokens[i].kind,
                    ) by {
                        if i > 0 {
                            assert(tokens[i] == rest[i - 1]);
                        }
                    }
                }
            },
            _ => {},
        }
    }
}

} // verus!
