//! Questions that are answered with yes or no.
use crate::text::{
    is_white, law_white_space_around_does_not_matter, lowered, same, to_lower, trim, trimmed,
};
use vstd::prelude::*;
use vstd::string::*;

verus! {

/// The question as it is shown, with the answer that an empty line gives in upper case.
pub fn question(prompt: &str, default_yes: bool) -> (r: String)
    ensures
        r@ == prompt@ + (if default_yes {
            " [Y/n]: "@
        } else {
            " [y/N]: "@
        }),
{
    let mut out = prompt.to_owned();
    if default_yes {
        out.append(" [Y/n]: ");
    } else {
        out.append(" [y/N]: ");
    }
    out
}

/// A line that means yes, in English or in French and in either case; an empty line means what it
/// means by default.
pub open spec fn means_yes(line: Seq<char>, default_yes: bool) -> bool {
    let answer = lowered(trimmed(line));
    if answer.len() == 0 {
        default_yes
    } else {
        answer == "y"@ || answer == "yes"@ || answer == "o"@ || answer == "oui"@
    }
}

/// Whether a line means yes.
pub fn is_yes(line: &str, default_yes: bool) -> (r: bool)
    ensures
        r == means_yes(line@, default_yes),
{
    let answer = to_lower(trim(line).as_str());
    if answer.as_str().is_empty() {
        return default_yes;
    }
    same(answer.as_str(), "y") || same(answer.as_str(), "yes") || same(answer.as_str(), "o")
        || same(answer.as_str(), "oui")
}

/// The words `y`, `yes`, `o` and `oui` mean yes, in whatever case and with whatever white space
/// around them; every other word means no; and an empty line means what it means by default.
pub proof fn law_yes_is_said_in_four_words(
    a: Seq<char>,
    word: Seq<char>,
    b: Seq<char>,
    default_yes: bool,
)
    requires
        forall|i: int| 0 <= i < a.len() ==> is_white(#[trigger] a[i]),
        forall|i: int| 0 <= i < b.len() ==> is_white(#[trigger] b[i]),
        word.len() > 0 ==> !is_white(word[0]) && !is_white(word.last()),
    ensures
        word.len() == 0 ==> means_yes(a + word + b, default_yes) == default_yes,
        word.len() > 0 ==> (means_yes(a + word + b, default_yes) <==> lowered(word) == "y"@ || lowered(
            word,
        ) == "yes"@ || lowered(word) == "o"@ || lowered(word) == "oui"@),
{
    law_white_space_around_does_not_matter(a, word, b);
}

}
