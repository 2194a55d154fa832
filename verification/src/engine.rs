//! The external YARA engine: its settings, what its output means, and when
//! a running scan is given up.

use vstd::prelude::*;
use std::path::PathBuf;
use crate::text::{
    all_digits, ascii_lower, digit_exec, digit_of, contains_ignore_ascii_case, fold_code, folded_match_at,
    lemma_ignore_case_is_lowering, no_upper, contains_ignore_ascii_case_text, is_space, is_space_char, push_text,
    split_on, split_text, text_of, trim, trim_start, trim_text,
};

verus! {

/// `std::path::PathBuf`, the path of the rules file; carried through as is.
#[verifier::external_type_specification]
#[verifier::external_body]
pub struct ExPathBuf(PathBuf);

/// The settings of the external `yara` executable.
pub struct YaraExternal {
    exe: String,
    rules: PathBuf,
    timeout_ms: u64,
}

/// Why a page could not be scanned.
#[derive(Clone, Debug)]
pub enum ScanError {
    /// `yara` exited without output and reported an error on stderr (trimmed).
    Failed(String),
    /// `yara` did not finish within the timeout and was killed.
    Timeout,
    /// Writing the page or running `yara` failed; the text says how.
    Io(String),
}

/// A scan error, with its texts as character sequences.
pub enum ScanFault {
    Failed(Seq<char>),
    Timeout,
    Io(Seq<char>),
}

impl View for ScanError {
    type V = ScanFault;

    open spec fn view(&self) -> ScanFault {
        match self {
            ScanError::Failed(s) => ScanFault::Failed(s@),
            ScanError::Timeout => ScanFault::Timeout,
            ScanError::Io(s) => ScanFault::Io(s@),
        }
    }
}

/// What a scan error reads as.
pub open spec fn scan_error_message(e: ScanFault) -> Seq<char> {
    match e {
        ScanFault::Failed(err) => "yara failed: "@ + err,
        ScanFault::Timeout => "yara timeout"@,
        ScanFault::Io(text) => text,
    }
}

impl ScanError {
    /// The error as text.
    pub fn message(&self) -> (r: String)
        ensures
            r@ == scan_error_message(self@),
    {
        match self {
            ScanError::Failed(err) => {
                let mut s = text_of("yara failed: ");
                push_text(&mut s, err.as_str());
                s
            },
            ScanError::Timeout => text_of("yara timeout"),
            ScanError::Io(t) => text_of(t.as_str()),
        }
    }
}

impl YaraExternal {
    /// An engine that runs `exe` with the rules file `rules`, giving each
    /// page `timeout_ms` milliseconds.
    pub fn new(exe: String, rules: PathBuf, timeout_ms: u64) -> (r: Result<Self, ScanError>)
        ensures
            r matches Ok(e) && e.spec_exe() == exe@ && e.spec_rules() == rules && e.spec_timeout_ms()
                == timeout_ms,
    {
        Ok(YaraExternal { exe, rules, timeout_ms })
    }

    pub closed spec fn spec_exe(&self) -> Seq<char> {
        self.exe@
    }

    pub closed spec fn spec_rules(&self) -> PathBuf {
        self.rules
    }

    pub closed spec fn spec_timeout_ms(&self) -> u64 {
        self.timeout_ms
    }

    /// The executable.
    pub fn exe(&self) -> (r: &str)
        ensures
            r@ == self.spec_exe(),
    {
        self.exe.as_str()
    }

    /// The rules file.
    pub fn rules(&self) -> (r: &PathBuf)
        ensures
            *r == self.spec_rules(),
    {
        &self.rules
    }

    /// The time one page may take, in milliseconds.
    pub fn timeout_ms(&self) -> (r: u64)
        ensures
            r == self.spec_timeout_ms(),
    {
        self.timeout_ms
    }
}

/// The characters of `s` up to its first white space.
pub open spec fn word_prefix(s: Seq<char>) -> Seq<char>
    decreases s.len(),
{
    if s.len() > 0 && !is_space(s[0]) {
        seq![s[0]] + word_prefix(s.drop_first())
    } else {
        Seq::empty()
    }
}

/// The first white-space separated word of `line`, empty if there is none.
pub open spec fn first_word(line: Seq<char>) -> Seq<char> {
    word_prefix(trim_start(line))
}

/// How many hex digits `s` starts with.
pub open spec fn hex_run(s: Seq<char>) -> nat
    decreases s.len(),
{
    if s.len() > 0 && digit_of(s[0], 16) is Some {
        1 + hex_run(s.drop_first())
    } else {
        0
    }
}

/// `w` opens a string-match line of `yara -s`, `0x<offset>:$<identifier>:`:
/// `0x`, at least one hex digit, then `:$`.
pub open spec fn is_string_match_word(w: Seq<char>) -> bool {
    let k: int = hex_run(w.skip(2)) as int;
    &&& w.len() >= 2
    &&& w[0] == '0'
    &&& w[1] == 'x'
    &&& k > 0
    &&& 3 + k < w.len()
    &&& w[2 + k] == ':'
    &&& w[3 + k] == '$'
}

/// The first word of each rule line, in order: lines without a word and the
/// string-match lines that `-s` adds are left out.
pub open spec fn rule_words(lines: Seq<Seq<char>>) -> Seq<Seq<char>>
    decreases lines.len(),
{
    if lines.len() == 0 {
        Seq::empty()
    } else {
        let before = rule_words(lines.drop_last());
        let w = first_word(lines.last());
        if w.len() > 0 && !is_string_match_word(w) {
            before.push(w)
        } else {
            before
        }
    }
}

/// The rule names that `yara -s` printed: the first word of each rule line;
/// the string-match lines under a rule only show why it matched.
pub open spec fn rule_names_of(out: Seq<char>) -> Seq<Seq<char>> {
    rule_words(split_on(out, '\n'))
}

proof fn lemma_hex_run_of_digits(h: Seq<char>, t: Seq<char>)
    requires
        all_digits(h, 16),
    ensures
        hex_run(h + t) == h.len() + hex_run(t),
    decreases h.len(),
{
    if h.len() > 0 {
        assert((h + t).drop_first() =~= h.drop_first() + t);
        assert((h + t)[0] == h[0]);
        assert(digit_of(h[0], 16) is Some);
        assert forall|i: int| 0 <= i < h.drop_first().len() implies (#[trigger] digit_of(
            h.drop_first()[i],
            16,
        )) is Some by {
            assert(h.drop_first()[i] == h[i + 1]);
        }
        lemma_hex_run_of_digits(h.drop_first(), t);
    } else {
        assert(h + t =~= t);
    }
}

/// The first words that `-s` prints for a matched string,
/// `0x<offset>:$<identifier>:` with the offset in hex, are never taken for
/// rule names; a word that does not start with `0x` always is one.
pub proof fn lemma_string_match_words(offset: Seq<char>, rest: Seq<char>, word: Seq<char>)
    requires
        offset.len() > 0,
        all_digits(offset, 16),
    ensures
        is_string_match_word("0x"@ + offset + ":$"@ + rest),
        word.len() < 2 || word[0] != '0' || word[1] != 'x' ==> !is_string_match_word(word),
{
    reveal_strlit("0x");
    reveal_strlit(":$");
    let w = "0x"@ + offset + ":$"@ + rest;
    assert(w.skip(2) =~= offset + (":$"@ + rest));
    lemma_hex_run_of_digits(offset, ":$"@ + rest);
    assert((":$"@ + rest)[0] == ':');
    assert(digit_of(':', 16) is None);
    assert(hex_run(":$"@ + rest) == 0);
    assert(w[2 + offset.len() as int] == ':');
    assert(w[3 + offset.len() as int] == '$');
}

fn is_string_match_word_text(w: &str) -> (b: bool)
    ensures
        b == is_string_match_word(w@),
{
    let n = w.unicode_len();
    if n < 2 || w.get_char(0) != '0' || w.get_char(1) != 'x' {
        return false;
    }
    let mut i: usize = 2;
    while i < n && digit_exec(w.get_char(i), 16).is_some()
        invariant
            2 <= i <= n,
            n == w@.len(),
            hex_run(w@.skip(2)) == (i - 2) + hex_run(w@.skip(i as int)),
        decreases n - i,
    {
        assert(w@.skip(i as int).drop_first() =~= w@.skip(i + 1));
        i = i + 1;
    }
    assert(hex_run(w@.skip(i as int)) == 0) by {
        if i < n {
            assert(w@.skip(i as int)[0] == w@[i as int]);
        }
    }
    i > 2 && i < n - 1 && w.get_char(i) == ':' && w.get_char(i + 1) == '$'
}

fn first_word_text(line: &str) -> (r: &str)
    ensures
        r@ == first_word(line@),
{
    let n = line.unicode_len();
    let mut i: usize = 0;
    assert(line@.subrange(0, n as int) =~= line@);
    while i < n && is_space_char(line.get_char(i))
        invariant
            i <= n,
            n == line@.len(),
            trim_start(line@) == trim_start(line@.subrange(i as int, n as int)),
        decreases n - i,
    {
        assert(line@.subrange(i as int, n as int).drop_first() =~= line@.subrange(i + 1, n as int));
        i = i + 1;
    }
    assert(trim_start(line@) == line@.subrange(i as int, n as int));
    let mut j: usize = i;
    assert(line@.subrange(i as int, j as int) =~= Seq::<char>::empty());
    while j < n && !is_space_char(line.get_char(j))
        invariant
            i <= j <= n,
            n == line@.len(),
            first_word(line@) == line@.subrange(i as int, j as int) + word_prefix(
                line@.subrange(j as int, n as int),
            ),
        decreases n - j,
    {
        assert(line@.subrange(j as int, n as int).drop_first() =~= line@.subrange(j + 1, n as int));
        assert(line@.subrange(i as int, j + 1) =~= line@.subrange(i as int, j as int) + seq![
            line@[j as int],
        ]);
        j = j + 1;
    }
    assert(line@.subrange(i as int, j as int) + word_prefix(line@.subrange(j as int, n as int))
        =~= line@.subrange(i as int, j as int));
    line.substring_char(i, j)
}

/// The rule names in the standard output of `yara -s`: the first word of
/// every rule line, in order; string-match lines are skipped.
pub fn rule_names(out: &str) -> (names: Vec<String>)
    ensures
        names.len() == rule_names_of(out@).len(),
        forall|i: int| 0 <= i < names.len() ==> #[trigger] names[i]@ == rule_names_of(out@)[i],
{
    let lines = split_text(out, '\n');
    let ghost all = split_on(out@, '\n');
    let mut names: Vec<String> = Vec::new();
    let mut k: usize = 0;
    assert(all.take(0) =~= Seq::<Seq<char>>::empty());
    while k < lines.len()
        invariant
            k <= lines.len(),
            lines.len() == all.len(),
            all == split_on(out@, '\n'),
            forall|q: int| 0 <= q < lines.len() ==> #[trigger] lines[q]@ == all[q],
            names.len() == rule_words(all.take(k as int)).len(),
            forall|q: int|
                0 <= q < names.len() ==> #[trigger] names[q]@ == rule_words(all.take(k as int))[q],
        decreases lines.len() - k,
    {
        let w = first_word_text(lines[k]);
        assert(all.take(k + 1).drop_last() =~= all.take(k as int));
        if w.unicode_len() > 0 && !is_string_match_word_text(w) {
            names.push(text_of(w));
        }
        k = k + 1;
    }
    assert(all.take(lines.len() as int) =~= all);
    names
}

/// What a finished `yara` run means: when it failed, printed nothing and
/// reported an error (or no rules) on stderr, the run failed with stderr
/// trimmed; otherwise the rules named on stdout matched. Stderr is searched
/// with ASCII letters folded to lower case; full Unicode lower-casing finds
/// the same words, as no other character lowers to one of their letters.
pub open spec fn exit_outcome(success: bool, out: Seq<char>, err: Seq<char>) -> Result<
    Seq<Seq<char>>,
    Seq<char>,
> {
    if !success && trim(out).len() == 0 && (contains_ignore_ascii_case(err, "no rules"@)
        || contains_ignore_ascii_case(err, "error"@)) {
        Err(trim(err))
    } else {
        Ok(rule_names_of(out))
    }
}

/// `word` stands in `text` at `at`, once the ASCII letters of `text` are
/// lowered.
pub open spec fn lowered_word_at(text: Seq<char>, word: Seq<char>, at: int) -> bool {
    &&& 0 <= at
    &&& at + word.len() <= text.len()
    &&& ascii_lower(text.subrange(at, at + word.len())) == word
}

/// `word` stands somewhere in `text`, once its ASCII letters are lowered.
pub open spec fn holds_lowered_word(text: Seq<char>, word: Seq<char>) -> bool {
    exists|at: int| #[trigger] lowered_word_at(text, word, at)
}

proof fn lemma_contains_is_lowered_search(text: Seq<char>, word: Seq<char>)
    requires
        no_upper(word),
    ensures
        contains_ignore_ascii_case(text, word) <==> holds_lowered_word(text, word),
{
    if contains_ignore_ascii_case(text, word) {
        let at = choose|at: int| folded_match_at(text, word, at);
        let sub = text.subrange(at, at + word.len());
        assert forall|k: int| 0 <= k < sub.len() implies fold_code(#[trigger] sub[k]) == fold_code(
            word[k],
        ) by {
            assert(sub[k] == text[at + k]);
        }
        lemma_ignore_case_is_lowering(sub, word);
        assert(lowered_word_at(text, word, at));
    }
    if holds_lowered_word(text, word) {
        let at = choose|at: int| lowered_word_at(text, word, at);
        let sub = text.subrange(at, at + word.len());
        lemma_ignore_case_is_lowering(sub, word);
        assert forall|k: int| 0 <= k < word.len() implies fold_code(#[trigger] text[at + k])
            == fold_code(word[k]) by {
            assert(sub[k] == text[at + k]);
        }
        assert(folded_match_at(text, word, at));
    }
}

/// A finished `yara` run failed exactly when it exited unsuccessfully,
/// printed nothing but white space on stdout, and wrote `error` or
/// `no rules` anywhere on stderr, in any ASCII case; the failure then
/// carries stderr trimmed. Every other run reports the rules named on stdout.
pub proof fn lemma_run_outcome(success: bool, out: Seq<char>, err: Seq<char>)
    ensures
        exit_outcome(success, out, err) is Err <==> {
            &&& !success
            &&& trim(out).len() == 0
            &&& (holds_lowered_word(err, "error"@) || holds_lowered_word(err, "no rules"@))
        },
        exit_outcome(success, out, err) matches Err(text) ==> text == trim(err),
        exit_outcome(success, out, err) matches Ok(names) ==> names == rule_names_of(out),
{
    reveal_strlit("error");
    reveal_strlit("no rules");
    lemma_contains_is_lowered_search(err, "error"@);
    lemma_contains_is_lowered_search(err, "no rules"@);
}

/// The outcome of a finished `yara` run from its exit status and its
/// standard output and error.
pub fn interpret_exit(success: bool, out: &str, err: &str) -> (r: Result<Vec<String>, ScanError>)
    ensures
        match r {
            Ok(names) => exit_outcome(success, out@, err@) matches Ok(expected) && names.len()
                == expected.len() && forall|i: int|
                0 <= i < names.len() ==> #[trigger] names[i]@ == expected[i],
            Err(e) => exit_outcome(success, out@, err@) matches Err(text) && e@ == ScanFault::Failed(
                text,
            ),
        },
{
    if !success && trim_text(out).unicode_len() == 0 {
        if contains_ignore_ascii_case_text(err, "no rules") || contains_ignore_ascii_case_text(
            err,
            "error",
        ) {
            return Err(ScanError::Failed(text_of(trim_text(err))));
        }
    }
    Ok(rule_names(out))
}

} // verus!
