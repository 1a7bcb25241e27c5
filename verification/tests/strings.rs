use log_streamer::error::ValueError;
use log_streamer::search::{find_from, split_ranges};
use log_streamer::string_utils::{
    _remove_non_alphabetic, _string_to_i128, lines_check_string_exists, normalize_spaces,
    replace_non_alphabetic_with_space, split_lines, string_to_bool, tokenize, tokenize_by,
    tokens_position, trim_lines,
};
use log_streamer::text::{chars_of, join, string_of, text_eq, trimmed_string};

fn owned(list: &[&str]) -> Vec<String> {
    list.iter().map(|s| s.to_string()).collect()
}

#[test]
fn characters_round_trip() {
    let text = "héllo\n wörld";
    assert_eq!(chars_of(text), text.chars().collect::<Vec<char>>());
    assert_eq!(string_of(&chars_of(text)), text);
    assert!(text_eq("abc", "abc"));
    assert!(!text_eq("abc", "abd"));
    assert!(!text_eq("abc", "ab"));
    assert_eq!(join(&owned(&["a", "b", "c"]), ", "), "a, b, c");
    assert_eq!(join(&owned(&[]), ", "), "");
    assert_eq!(trimmed_string(" \t x y \u{a0}\n"), "x y");
}

#[test]
fn split_lines_follows_split_terminator() {
    for text in ["line1\nline2\rline3", "a\n", "a\n\n", "", "\n", "a\r\nb", "\r\r", "x"] {
        let expected: Vec<String> = text
            .split_terminator(['\n', '\r'])
            .map(|s| s.to_string())
            .collect();
        assert_eq!(split_lines(text), expected, "for {:?}", text);
    }
    assert_eq!(
        split_lines("line1\nline2\rline3"),
        owned(&["line1", "line2", "line3"])
    );
}

#[test]
fn tokenize_follows_split_whitespace() {
    for text in [
        "CURRENT NAME CLUSTER AUTHINFO NAMESPACE",
        "  a \t b\n\nc  ",
        "",
        "   ",
        "one",
        "a\u{2003}b\u{a0}c",
    ] {
        let expected: Vec<&str> = text.split_whitespace().collect();
        assert_eq!(tokenize(text), expected, "for {:?}", text);
    }
}

#[test]
fn normalize_spaces_leaves_single_blanks() {
    let input = "  save   stern defaults false   skip invalid messages false    nginx   ".to_string();
    assert_eq!(
        normalize_spaces(&input),
        "save stern defaults false skip invalid messages false nginx"
    );
    assert_eq!(normalize_spaces(&" \t ".to_string()), "");
}

#[test]
fn tokenize_by_follows_split_and_splitn() {
    let texts = ["a,b,,c", "", ",", "abc", "a, b ,c ,", "rust", "aXXbXXXc", "né,ü"];
    let separators = [",", "XX", "", "é", "abc"];
    for text in texts {
        for separator in separators {
            let all: Vec<String> = text.split(separator).map(|s| s.to_string()).collect();
            assert_eq!(
                tokenize_by(text, separator, -1, false, false),
                all,
                "split {:?} by {:?}",
                text,
                separator
            );
            assert_eq!(tokenize_by(text, separator, -5, false, false), all);
            for n in 0..5usize {
                let limited: Vec<String> =
                    text.splitn(n, separator).map(|s| s.to_string()).collect();
                assert_eq!(
                    tokenize_by(text, separator, n as isize, false, false),
                    limited,
                    "splitn {} {:?} by {:?}",
                    n,
                    text,
                    separator
                );
            }
        }
    }
}

#[test]
fn tokenize_by_trims_and_skips() {
    assert_eq!(
        tokenize_by(" a , ,b,, c ", ",", -1, true, true),
        owned(&["a", "b", "c"])
    );
    assert_eq!(
        tokenize_by(" a , ,b", ",", -1, true, false),
        owned(&["a", "", "b"])
    );
    assert_eq!(
        tokenize_by(" a , ,b", ",", -1, false, true),
        owned(&[" a ", " ", "b"])
    );
    assert_eq!(tokenize_by("a,b,c", ",", 2, true, true), owned(&["a", "b,c"]));
    assert_eq!(tokenize_by("", ",", -1, true, true), owned(&[]));
}

#[test]
fn trim_lines_keeps_what_is_written() {
    assert_eq!(trim_lines("  a  \n\n b\n".to_string()), "a\nb");
    assert_eq!(trim_lines("a\rb\n".to_string()), "a\rb");
    assert_eq!(trim_lines(" \n \n".to_string()), "");
    assert_eq!(trim_lines(String::new()), "");
    assert_eq!(trim_lines("x".to_string()), "x");
}

#[test]
fn a_line_is_found_by_its_words() {
    let lines = "warning\nCURRENT   NAME      CLUSTER   AUTHINFO   NAMESPACE  \n*  a b c\n";
    assert!(lines_check_string_exists(
        lines,
        "CURRENT   NAME      CLUSTER   AUTHINFO   NAMESPACE"
    ));
    assert!(lines_check_string_exists(lines, "CURRENT NAME CLUSTER AUTHINFO NAMESPACE"));
    assert!(lines_check_string_exists(lines, " warning "));
    assert!(!lines_check_string_exists(lines, "CURRENT NAME"));
    assert!(!lines_check_string_exists(lines, ""));
    assert!(lines_check_string_exists("a\n\nb", ""));
    assert!(!lines_check_string_exists("", ""));
}

#[test]
fn tokens_are_placed_by_bytes() {
    let s = "CURRENT NAME CLUSTER AUTHINFO NAMESPACE";
    let tokens = vec!["CURRENT", "NAME", "CLUSTER", "AUTHINFO", "NAMESPACE", "missing"];
    let positions = tokens_position(s, &tokens);
    assert_eq!(positions.len(), 6);
    assert_eq!(positions.get("CURRENT"), Some(&0));
    assert_eq!(positions.get("NAME"), Some(&8));
    assert_eq!(positions.get("CLUSTER"), Some(&13));
    assert_eq!(positions.get("AUTHINFO"), Some(&21));
    assert_eq!(positions.get("NAMESPACE"), Some(&30));
    assert_eq!(positions.get("missing"), Some(&-1));
    assert_eq!(positions.get("other"), None);

    let s = "é€😀 x";
    let positions = tokens_position(s, &vec!["€", "😀", "x", "é"]);
    for token in ["€", "😀", "x", "é"] {
        assert_eq!(positions.get(token), Some(&(s.find(token).unwrap() as isize)));
    }
    let positions = tokens_position("NAMESPACE NAME", &vec!["NAME", "NAME"]);
    assert_eq!(positions.len(), 1);
    assert_eq!(positions.get("NAME"), Some(&0));
}

#[test]
fn search_finds_the_first_place() {
    let v: Vec<char> = "abcabc".chars().collect();
    let pat: Vec<char> = "bc".chars().collect();
    assert_eq!(find_from(&v, &pat, 0), Some(1));
    assert_eq!(find_from(&v, &pat, 2), Some(4));
    assert_eq!(find_from(&v, &pat, 5), None);
    assert_eq!(find_from(&v, &Vec::new(), 6), Some(6));
    let sep: Vec<char> = "b".chars().collect();
    assert_eq!(split_ranges(&v, &sep, None), vec![(0, 1), (2, 4), (5, 6)]);
    assert_eq!(split_ranges(&v, &sep, Some(2)), vec![(0, 1), (2, 6)]);
    assert_eq!(split_ranges(&v, &sep, Some(0)), vec![]);
}

#[test]
fn truth_values_are_spelled_exactly() {
    for text in ["true", "t", "yes", "y", "1"] {
        assert_eq!(string_to_bool(text), Ok(true));
    }
    for text in ["false", "f", "no", "n", "0"] {
        assert_eq!(string_to_bool(text), Ok(false));
    }
    for text in ["", "True", " true", "2", "tr"] {
        let error = string_to_bool(text).unwrap_err();
        assert_eq!(error, ValueError::NoBoolean(text.to_string()));
        assert_eq!(error.message(), format!("\"{}\" no boolean value", text));
    }
}

#[test]
fn whole_numbers_follow_parse() {
    let limits = [i128::MAX.to_string(), i128::MIN.to_string()];
    let mut texts: Vec<String> = owned(&[
        "0", "-0", "+0", "42", "-42", "+42", "007", "", "-", "+", "1 ", " 1", "1_0", "0x10", "--1",
        "+-1", "1.0", "١٢", "12a",
        "170141183460469231731687303715884105728",
        "-170141183460469231731687303715884105729",
        "99999999999999999999999999999999999999999999",
        "00000000000000000000000000000000000000000000000000001",
    ]);
    texts.extend(limits);
    for text in texts {
        match text.parse::<i128>() {
            Ok(value) => assert_eq!(_string_to_i128(&text), Ok(value), "for {:?}", text),
            Err(_) => {
                let error = _string_to_i128(&text).unwrap_err();
                assert_eq!(error, ValueError::NoInteger(text.clone()), "for {:?}", text);
                assert_eq!(error.message(), format!("\"{}\" no integer value", text));
            }
        }
    }
    assert_eq!(_string_to_i128("-170141183460469231731687303715884105728"), Ok(i128::MIN));
}

#[test]
fn letters_stay_and_the_rest_gives_way() {
    let text = "Ab1 -c_é٣!".to_string();
    let expected: String = text
        .chars()
        .map(|c| if c.is_alphabetic() || c.is_alphanumeric() { c } else { ' ' })
        .collect();
    assert_eq!(replace_non_alphabetic_with_space(&text), expected);
    assert_eq!(replace_non_alphabetic_with_space(&text), "Ab1  c é٣ ");
    let kept: String = text.chars().filter(|c| c.is_alphabetic() || *c == ' ').collect();
    assert_eq!(_remove_non_alphabetic(&text), kept);
    assert_eq!(_remove_non_alphabetic(&text), "Ab cé");
}

#[test]
fn missing_key_message() {
    assert_eq!(
        ValueError::MissingKey("--save".to_string()).message(),
        "key \"--save\" is missing"
    );
}
