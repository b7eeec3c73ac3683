use mdbook_mathpunc::find_and_replace;
use mdbook_mathpunc::MathpuncPreprocessor;

#[test]
fn basic() {
    let input = String::from(
        r"Consider a group $\GG$, of order $p$; and a generator $G$: for example an elliptic curve $E$.",
    );
    let output = find_and_replace(&input);
    let expected = String::from(
        r"Consider a group $\GG,$ of order $p;$ and a generator $G\!\!:$ for example an elliptic curve $E.$",
    );
    assert_eq!(output, expected);
}

#[test]
fn escaped_dollar() {
    let input = String::from(r"This is an escaped dollar \$, don't replace. This as well \& .");
    let output = find_and_replace(&input);
    assert_eq!(output, input);
}

#[test]
fn whitespaces() {
    let input = String::from(
        r"Consider a group $\GG$  , of order $p$ ; and a generator $G$   : for example an elliptic curve $E$ .",
    );
    let output = find_and_replace(&input);
    let expected = String::from(
        r"Consider a group $\GG,$ of order $p;$ and a generator $G\!\!:$ for example an elliptic curve $E.$",
    );
    assert_eq!(output, expected);
}

#[test]
fn parenthesis() {
    let input =
        String::from(r"Consider a group $\GG$ (of order $p$), and a generator $G$ (of $\GG$).");
    let output = find_and_replace(&input);
    let expected =
        String::from(r"Consider a group $\GG$ (of order $p),$ and a generator $G$ (of $\GG).$");
    assert_eq!(output, expected);
}

#[test]
fn parenthesis_and_colon() {
    let input = String::from(r"Consider a group $\GG$ (of order $p$):");
    let output = find_and_replace(&input);
    let expected = String::from(r"Consider a group $\GG$ (of order $p)\!\!:$");
    assert_eq!(output, expected);
}

#[test]
fn preprocessor_name() {
    let pre = MathpuncPreprocessor::new();
    assert_eq!(pre.name(), "mathpunc");
}

#[test]
fn empty_input() {
    assert_eq!(find_and_replace(""), "");
}

#[test]
fn lone_marker() {
    assert_eq!(find_and_replace("$"), "$");
}

#[test]
fn colon_gets_kerning() {
    assert_eq!(find_and_replace("$:"), r"\!\!:$");
}

#[test]
fn colon_after_whitespace_gets_kerning() {
    assert_eq!(find_and_replace("$  :"), r"\!\!:$");
}

#[test]
fn parenthesis_alone_moves() {
    assert_eq!(find_and_replace("$)"), ")$");
}

#[test]
fn parenthesis_then_colon_is_one_token() {
    assert_eq!(find_and_replace("$):"), r")\!\!:$");
    assert_eq!(find_and_replace("$ ):"), r")\!\!:$");
}

#[test]
fn parenthesis_then_comma_is_one_token() {
    // A closing parenthesis immediately followed by another mark moves as
    // one two-character token; only a trailing colon brings the kerning
    // correction.
    assert_eq!(find_and_replace("$),"), "),$");
    assert_eq!(find_and_replace("$)."), ").$");
}

#[test]
fn parenthesis_then_spaced_mark_stays_single() {
    // Whitespace after the parenthesis breaks the two-character token: the
    // parenthesis moves alone and the rest is ordinary text.
    assert_eq!(find_and_replace("$) ."), ")$ .");
}

#[test]
fn tab_and_newline_count_as_whitespace() {
    assert_eq!(find_and_replace("$ \t ."), ".$");
    assert_eq!(find_and_replace("$\n;"), ";$");
}

#[test]
fn escaped_marker_keeps_following_punctuation() {
    let input = r"\$ ,";
    assert_eq!(find_and_replace(input), input);
}

#[test]
fn lookbehind_is_one_character() {
    // The dollar sign is preceded by a backslash, so it counts as escaped,
    // even though that backslash is itself escaped.
    let input = r"\\$.";
    assert_eq!(find_and_replace(input), input);
}

#[test]
fn double_marker() {
    assert_eq!(find_and_replace("$$."), "$.$");
}

#[test]
fn second_pass_is_no_op() {
    let input = String::from(
        r"Consider a group $\GG$, of order $p$; and a generator $G$: for example an elliptic curve $E$.",
    );
    let once = find_and_replace(&input);
    let twice = find_and_replace(&once);
    assert_eq!(twice, once);
}

#[test]
fn whitespace_count_does_not_matter() {
    let none = find_and_replace("$\\GG$, done");
    let some = find_and_replace("$\\GG$   , done");
    assert_eq!(none, some);
}
