//! The candidate addresses that a configuration text offers.

use crate::lines::{lines_of, split_lines};
use crate::sorted::{insert_sorted, lemma_sorted_unique, strictly_sorted};
use crate::strings::{option_view, option_views, views};
use vstd::prelude::*;

verus! {

/// The error with which the regex engine rejects a pattern.
#[verifier::external_type_specification]
#[verifier::external_body]
pub struct ExRegexError(regex::Error);

/// The pattern of a line that assigns an address: after any number of `#`
/// and white space the word `email` in any case, `=` with optional white
/// space on both sides, and a token without white space that holds an `@`
/// between two of its characters. The token is the first group.
pub const EMAIL_PATTERN: &'static str = "(?i)^[#\\s]*email\\s*=\\s*(\\S+@\\S+)";

/// What the regex engine finds for `pattern` in `haystack`: `None` where it
/// rejects the pattern, `Some(None)` where the pattern does not match or
/// matches without its first group, and the text of the first group of the
/// leftmost match otherwise.
pub uninterp spec fn regex_first_group(pattern: Seq<char>, haystack: Seq<char>) -> Option<
    Option<Seq<char>>,
>;

/// `Regex::new` on `pattern`, then `Regex::captures` on `haystack` and
/// `Captures::get(1)`. The result depends on the two texts alone, so it has
/// a name, `regex_first_group`; nothing else is claimed of it. The engine's
/// error comes back as it is.
#[verifier::external_body]
fn first_group(pattern: &str, haystack: &str) -> (found: Result<Option<String>, regex::Error>)
    ensures
        match found {
            Ok(group) => regex_first_group(pattern@, haystack@) == Some(option_view(group)),
            Err(_) => regex_first_group(pattern@, haystack@) is None,
        },
{
    let re = regex::Regex::new(pattern)?;
    let group = match re.captures(haystack) {
        Some(found) => found.get(1),
        None => None,
    };
    match group {
        Some(part) => Ok(Some(part.as_str().to_string())),
        None => Ok(None),
    }
}

/// The address that `line` assigns, if it assigns one: the first group of
/// `EMAIL_PATTERN` in it. A pattern that the engine rejects matches nothing.
pub open spec fn email_token(line: Seq<char>) -> Option<Seq<char>> {
    match regex_first_group(EMAIL_PATTERN@, line) {
        Some(group) => group,
        None => None,
    }
}

/// The address that `line` assigns, if it assigns one.
pub fn email_in_line(line: &str) -> (token: Option<String>)
    ensures
        option_view(token) == email_token(line@),
{
    match first_group(EMAIL_PATTERN, line) {
        Ok(group) => group,
        Err(_) => None,
    }
}

/// For each line, the address that it assigns, if it assigns one.
pub open spec fn line_tokens(lines: Seq<Seq<char>>) -> Seq<Option<Seq<char>>> {
    Seq::new(lines.len(), |i: int| email_token(lines[i]))
}

/// Whether some line of `text` assigns `address`.
pub open spec fn offers(text: Seq<char>, address: Seq<char>) -> bool {
    line_tokens(lines_of(text)).contains(Some(address))
}

/// Looks in each line for the address that it assigns.
pub fn tokens_of(lines: &Vec<String>) -> (tokens: Vec<Option<String>>)
    ensures
        option_views(tokens@) == line_tokens(views(lines@)),
{
    let mut tokens: Vec<Option<String>> = Vec::new();
    let mut i: usize = 0;
    while i < lines.len()
        invariant
            i <= lines.len(),
            tokens.len() == i,
            forall|j: int| 0 <= j < i ==> option_view(#[trigger] tokens[j]) == email_token(lines[j]@),
        decreases lines.len() - i,
    {
        let token = email_in_line(lines[i].as_str());
        tokens.push(token);
        i = i + 1;
    }
    assert(option_views(tokens@) =~= line_tokens(views(lines@)));
    tokens
}

/// The addresses among `tokens`, each once, in ascending order.
pub fn sorted_candidates(tokens: &Vec<Option<String>>) -> (list: Vec<String>)
    ensures
        strictly_sorted(views(list@)),
        forall|s: Seq<char>| views(list@).contains(s) <==> option_views(tokens@).contains(Some(s)),
{
    let mut list: Vec<String> = Vec::new();
    let mut i: usize = 0;
    while i < tokens.len()
        invariant
            i <= tokens.len(),
            strictly_sorted(views(list@)),
            forall|s: Seq<char>|
                views(list@).contains(s) <==> option_views(tokens@).take(i as int).contains(
                    Some(s),
                ),
        decreases tokens.len() - i,
    {
        let ghost before = views(list@);
        let ghost seen = option_views(tokens@).take(i as int);
        let ghost next = option_views(tokens@).take(i + 1);
        assert(next =~= seen.push(option_view(tokens[i as int])));
        match &tokens[i] {
            Some(token) => {
                insert_sorted(&mut list, token.clone());
                assert forall|s: Seq<char>| views(list@).contains(s) <==> next.contains(
                    Some(s),
                ) by {
                    assert(views(list@).to_set().contains(s) <==> before.to_set().contains(s) || s
                        == token@);
                    if seen.contains(Some(s)) {
                        let k = choose|k: int| 0 <= k < seen.len() && seen[k] == Some(s);
                        assert(next[k] == Some(s));
                    }
                    if s == token@ {
                        assert(next[i as int] == Some(s));
                    }
                    if next.contains(Some(s)) {
                        let k = choose|k: int| 0 <= k < next.len() && next[k] == Some(s);
                        if k < i {
                            assert(seen[k] == Some(s));
                        }
                    }
                }
            },
            None => {
                assert forall|s: Seq<char>| seen.contains(Some(s)) <==> next.contains(Some(s)) by {
                    if seen.contains(Some(s)) {
                        let k = choose|k: int| 0 <= k < seen.len() && seen[k] == Some(s);
                        assert(next[k] == Some(s));
                    }
                    if next.contains(Some(s)) {
                        let k = choose|k: int| 0 <= k < next.len() && next[k] == Some(s);
                        assert(seen[k] == Some(s));
                    }
                }
            },
        }
        i = i + 1;
    }
    assert(option_views(tokens@).take(i as int) =~= option_views(tokens@));
    list
}

/// The addresses that the lines of `text` assign, each once, in ascending
/// order. A text in which no line assigns one gives the empty list.
pub fn extract(text: &str) -> (list: Vec<String>)
    ensures
        strictly_sorted(views(list@)),
        forall|s: Seq<char>| views(list@).contains(s) <==> offers(text@, s),
        (forall|s: Seq<char>| !offers(text@, s)) ==> list@.len() == 0,
{
    let lines = split_lines(text);
    let tokens = tokens_of(&lines);
    let list = sorted_candidates(&tokens);
    proof {
        if list@.len() > 0 {
            let first = views(list@)[0];
            assert(views(list@).contains(first));
            assert(offers(text@, first));
        }
    }
    list
}

/// The text decides the list of its candidates: two lists that are strictly
/// sorted and hold exactly the addresses that `text` offers are equal.
pub proof fn lemma_candidates_unique(text: Seq<char>, a: Seq<Seq<char>>, b: Seq<Seq<char>>)
    requires
        strictly_sorted(a),
        strictly_sorted(b),
        forall|s: Seq<char>| a.contains(s) <==> offers(text, s),
        forall|s: Seq<char>| b.contains(s) <==> offers(text, s),
    ensures
        a == b,
{
    lemma_sorted_unique(a, b);
}

/// The candidates of a configuration that may be missing or unreadable: those
/// of its text, and none where there is no text.
pub fn candidates_of_source(content: Option<String>) -> (list: Vec<String>)
    ensures
        strictly_sorted(views(list@)),
        forall|s: Seq<char>|
            views(list@).contains(s) <==> (content is Some && offers(content.unwrap()@, s)),
        content is None ==> list@.len() == 0,
{
    match content {
        Some(text) => extract(text.as_str()),
        None => {
            let list: Vec<String> = Vec::new();
            assert(views(list@).len() == 0);
            list
        },
    }
}

} // verus!
