//! A guard over the scripts of the windows.
//!
//! A line break that was meant to be written and was typed breaks a script, and
//! nothing tells of it. Its mark is a line on which a quote is opened and not
//! closed.

use vstd::prelude::*;

use crate::text::to_chars;

verus! {

/// The double quotes of a line from `from` on that no backslash stands before,
/// where those between backticks do not count.
pub open spec fn quotes_from(line: Seq<char>, from: int, in_backticks: bool) -> nat
    decreases line.len() + 1 - from,
{
    if from < 0 || from >= line.len() {
        0
    } else if line[from] == '\\' {
        quotes_from(line, from + 2, in_backticks)
    } else if line[from] == '`' {
        quotes_from(line, from + 1, !in_backticks)
    } else if line[from] == '"' && !in_backticks {
        1 + quotes_from(line, from + 1, in_backticks)
    } else {
        quotes_from(line, from + 1, in_backticks)
    }
}

/// How many double quotes a line has that open or close a string. Text between
/// backticks may go over several lines, and does not count.
pub fn aspas_abertas(linha: &str) -> (total: usize)
    ensures
        total == quotes_from(linha@, 0, false),
{
    let caracteres = to_chars(linha);
    let fim: usize = caracteres.len();
    let mut total: usize = 0;
    let mut i: usize = 0;
    let mut em_crase = false;
    while i < fim
        invariant
            fim == caracteres@.len(),
            caracteres@ == linha@,
            i <= fim,
            total <= i,
            total + quotes_from(linha@, i as int, em_crase) == quotes_from(linha@, 0, false),
        decreases fim - i,
    {
        let atual = caracteres[i];
        if atual == '\\' {
            if fim - i <= 2 {
                proof {
                    reveal_with_fuel(quotes_from, 2);
                }
                return total;
            }
            i = i + 2;
        } else {
            if atual == '`' {
                em_crase = !em_crase;
            } else if atual == '"' && !em_crase {
                total = total + 1;
            }
            i = i + 1;
        }
    }
    total
}


/// How often a double quote stands in a line from `from` on.
pub open spec fn double_quotes(line: Seq<char>, from: int) -> nat
    decreases line.len() - from,
{
    if from < 0 || from >= line.len() {
        0
    } else if line[from] == '"' {
        1 + double_quotes(line, from + 1)
    } else {
        double_quotes(line, from + 1)
    }
}

/// In a line with neither a backslash nor a backtick every double quote counts.
pub proof fn law_plain_quotes_all_count(line: Seq<char>, from: int)
    requires
        0 <= from,
        forall|i: int| from <= i < line.len() ==> (#[trigger] line[i]) != '\\' && line[i] != '`',
    ensures
        quotes_from(line, from, false) == double_quotes(line, from),
        quotes_from(line, from, true) == 0,
    decreases line.len() - from,
{
    if from < line.len() {
        assert(line[from] != '\\');
        law_plain_quotes_all_count(line, from + 1);
    }
}

/// What a backslash stands before does not count, whatever it is.
pub proof fn law_escaped_quotes_do_not_count(line: Seq<char>, from: int, in_backticks: bool)
    requires
        0 <= from,
        from + 1 < line.len(),
        line[from] == '\\',
    ensures
        quotes_from(line, from, in_backticks) == quotes_from(line, from + 2, in_backticks),
{
}

/// Between two backticks nothing counts: what follows the second one counts as if
/// neither they nor what they hold were there.
pub proof fn law_quoted_text_does_not_count(line: Seq<char>, from: int, to: int)
    requires
        0 <= from < to < line.len(),
        line[from] == '`',
        line[to] == '`',
        forall|i: int| from < i < to ==> (#[trigger] line[i]) != '\\' && line[i] != '`',
    ensures
        quotes_from(line, from, false) == quotes_from(line, to + 1, false),
{
    lemma_within(line, from + 1, to);
}

proof fn lemma_within(line: Seq<char>, from: int, to: int)
    requires
        0 <= from <= to < line.len(),
        line[to] == '`',
        forall|i: int| from <= i < to ==> (#[trigger] line[i]) != '\\' && line[i] != '`',
    ensures
        quotes_from(line, from, true) == quotes_from(line, to + 1, false),
    decreases to - from,
{
    if from < to {
        assert(line[from] != '\\');
        lemma_within(line, from + 1, to);
    }
}

} // verus!
