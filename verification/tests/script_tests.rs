use srcbundler::script::{
    check_end, check_last_line_comments, count_char, is_after_operand, is_closed_on_line,
    is_quiet_to_line_end, is_script_minifiable, is_slash_settled, MAX_BACKTICKS,
};

fn chars(s: &str) -> Vec<char> {
    s.chars().collect()
}

fn minifiable(s: &str) -> bool {
    is_script_minifiable(&chars(s))
}

/// Hands every text over the alphabet that is admitted to the token minifier.
fn sweep(alphabet: &[char], max_len: usize) -> (u64, u64) {
    let mut tried: u64 = 0;
    let mut admitted: u64 = 0;
    let k = alphabet.len();
    for len in 0..=max_len {
        let mut idx = vec![0usize; len];
        loop {
            let text: Vec<char> = idx.iter().map(|&i| alphabet[i]).collect();
            tried += 1;
            if is_script_minifiable(&text) {
                admitted += 1;
                let s: String = text.iter().collect();
                let _ = minifier::js::minify(&s).to_string();
            }
            let mut p = len;
            let mut done = true;
            while p > 0 {
                p -= 1;
                idx[p] += 1;
                if idx[p] < k {
                    done = false;
                    break;
                }
                idx[p] = 0;
            }
            if done {
                break;
            }
        }
    }
    (tried, admitted)
}

#[test]
fn ordinary_scripts_are_admitted() {
    assert!(minifiable(""));
    assert!(minifiable("let a = 1;\n"));
    assert!(minifiable("// comment with a.b and c/d\nlet a = b / c.d;\n"));
    assert!(minifiable("/* block\n * with a.b\n */\nlet a = 1;\n"));
    assert!(minifiable("const u = \"http://example.com/a.html\";\n"));
    assert!(minifiable("x = y ? /ab+c/.test(z) : (a + b) / c.d;\n"));
    assert!(minifiable("return (\n  <div>\n    <a href=\"x.html\">t</a>\n  </div>\n);\n"));
    assert!(minifiable("const t = `a ${b} c`;\n"));
    assert!(minifiable("let s = 'é';"));
}

#[test]
fn open_comments_at_the_end_are_refused() {
    assert!(!minifiable("/*"));
    assert!(!minifiable("x /*!"));
    assert!(!minifiable("/* é"));
    assert!(!minifiable("// é"));
    assert!(!minifiable("a\n//é"));
    assert!(minifiable("// é\n"));
    assert!(minifiable("//é\na"));
    assert!(minifiable("/* é */"));
    assert!(minifiable("//"));
}

#[test]
fn unclosed_regex_with_a_dot_after_it_is_refused() {
    assert!(!minifiable("/x.y.z\n;;"));
    assert!(!minifiable("return (\n  <A.B.C>\n  </A.B.C>\n);\n"));
    assert!(!minifiable("a = /x`\n"));
    assert!(minifiable("a = /x.y/\n"));
    assert!(minifiable("a = b /x.y\n"));
    assert!(minifiable("a = (b) /x.y\n"));
    assert!(minifiable("a = /xy\n"));
}

#[test]
fn too_many_backticks_are_refused() {
    let at_limit: String = std::iter::repeat("`${").take(MAX_BACKTICKS).collect::<String>() + "a";
    let over: String = std::iter::repeat("`${").take(MAX_BACKTICKS + 1).collect::<String>() + "a";
    assert!(minifiable(&at_limit));
    assert!(!minifiable(&over));
    let _ = minifier::js::minify(&at_limit).to_string();
}

#[test]
fn count_char_examples() {
    assert_eq!(count_char(&chars("a`b``"), '`'), 3);
    assert_eq!(count_char(&chars(""), '`'), 0);
    assert_eq!(count_char(&chars("abc"), '`'), 0);
}

#[test]
fn check_end_examples() {
    assert!(check_end(&chars("")));
    assert!(check_end(&chars("a;")));
    assert!(check_end(&chars("a\n")));
    assert!(!check_end(&chars("a*")));
    assert!(!check_end(&chars("a!")));
    assert!(!check_end(&chars("aé")));
}

#[test]
fn check_last_line_comments_examples() {
    assert!(check_last_line_comments(&chars("// a")));
    assert!(check_last_line_comments(&chars("//")));
    assert!(check_last_line_comments(&chars("//é\n")));
    assert!(check_last_line_comments(&chars("//é\r")));
    assert!(check_last_line_comments(&chars("//é\nx // y")));
    assert!(!check_last_line_comments(&chars("//é")));
    assert!(!check_last_line_comments(&chars("a\nb //é c")));
    assert!(!check_last_line_comments(&chars("///é")));
    assert!(check_last_line_comments(&chars("/ /é")));
}

#[test]
fn after_operand_examples() {
    assert!(is_after_operand(&chars("a /"), 2));
    assert!(is_after_operand(&chars("a \t /"), 4));
    assert!(is_after_operand(&chars(") /"), 2));
    assert!(is_after_operand(&chars("\"s\"/"), 3));
    assert!(!is_after_operand(&chars("/"), 0));
    assert!(!is_after_operand(&chars("  /"), 2));
    assert!(!is_after_operand(&chars("= /"), 2));
    assert!(!is_after_operand(&chars("(/"), 1));
    assert!(!is_after_operand(&chars("a\n/"), 2));
    assert!(!is_after_operand(&chars("a\n  /"), 4));
}

#[test]
fn closed_on_line_examples() {
    assert!(is_closed_on_line(&chars("ab/"), 0));
    assert!(is_closed_on_line(&chars("/"), 0));
    assert!(is_closed_on_line(&chars("a\\\nb/"), 0));
    assert!(is_closed_on_line(&chars("a\\//"), 0));
    assert!(!is_closed_on_line(&chars("a\\/"), 0));
    assert!(!is_closed_on_line(&chars("ab\n/"), 0));
    assert!(!is_closed_on_line(&chars("ab\r/"), 0));
    assert!(!is_closed_on_line(&chars("ab"), 0));
    assert!(!is_closed_on_line(&chars("ab\\"), 0));
    assert!(!is_closed_on_line(&chars("/ab"), 1));
    assert!(!is_closed_on_line(&chars(""), 0));
}

#[test]
fn quiet_to_line_end_examples() {
    assert!(is_quiet_to_line_end(&chars("div>\n a.b"), 0));
    assert!(is_quiet_to_line_end(&chars("div>"), 0));
    assert!(is_quiet_to_line_end(&chars(""), 0));
    assert!(is_quiet_to_line_end(&chars("a\\"), 0));
    assert!(!is_quiet_to_line_end(&chars("a.b\n"), 0));
    assert!(!is_quiet_to_line_end(&chars("a`\n"), 0));
    assert!(!is_quiet_to_line_end(&chars("a\\.\n"), 0));
    assert!(!is_quiet_to_line_end(&chars("a\\\nb.c\n"), 0));
    assert!(is_quiet_to_line_end(&chars("a\\\nbc\n.."), 0));
}

#[test]
fn slash_settled_examples() {
    assert!(is_slash_settled(&chars("/"), 0));
    assert!(is_slash_settled(&chars("//x.y"), 0));
    assert!(is_slash_settled(&chars("//x.y"), 1));
    assert!(is_slash_settled(&chars("/*x.y"), 0));
    assert!(is_slash_settled(&chars("a/x.y"), 1));
    assert!(is_slash_settled(&chars("=/x.y/"), 1));
    assert!(is_slash_settled(&chars("</div>"), 1));
    assert!(!is_slash_settled(&chars("=/x.y"), 1));
    assert!(!is_slash_settled(&chars("*//x.y"), 2));
    assert!(!is_slash_settled(&chars("/x.y"), 0));
}

#[test]
fn admitted_texts_pass_the_token_minifier_comments() {
    let (tried, admitted) = sweep(&['/', '*', '.', '\n', 'a', ' ', '`', '"', '\\', '!', ';', '1'], 6);
    assert!(admitted > 0 && admitted < tried);
}

#[test]
fn admitted_texts_pass_the_token_minifier_templates() {
    let (tried, admitted) = sweep(&['/', '.', '\n', 'é', '$', '{', '}', '`', '=', 'g', '\'', '\r'], 6);
    assert!(admitted > 0 && admitted < tried);
}

#[test]
fn admitted_texts_pass_the_token_minifier_brackets() {
    let (tried, admitted) = sweep(&['/', '<', '>', '.', '\n', 'a', ')', '(', '*', '\t', ',', '0'], 6);
    assert!(admitted > 0 && admitted < tried);
}

#[test]
fn admitted_texts_pass_the_token_minifier_wide_ends() {
    let (tried, admitted) = sweep(&['/', '*', '.', '\n', 'é', '!', ' ', '\\', '1'], 6);
    assert!(admitted > 0 && admitted < tried);
}

#[test]
fn admitted_texts_pass_the_token_minifier_strings() {
    let (tried, admitted) = sweep(&['/', '.', '\n', 'a', ' ', '"', '\'', '\\'], 7);
    assert!(admitted > 0 && admitted < tried);
}

#[test]
fn admitted_texts_pass_the_token_minifier_flags() {
    let (tried, admitted) = sweep(&['/', '.', '\n', 'i', 'g', '\\', '=', ';', '[', ']'], 6);
    assert!(admitted > 0 && admitted < tried);
}

#[test]
fn admitted_texts_pass_the_token_minifier_operators() {
    let (tried, admitted) = sweep(&['/', '.', '\n', '+', '-', '%', '&', '|', '?', ':'], 6);
    assert!(admitted > 0 && admitted < tried);
}

#[test]
fn admitted_texts_pass_the_token_minifier_line_ends() {
    let (tried, admitted) = sweep(&['/', '*', '\n', '\r', 'é', '!', '.'], 7);
    assert!(admitted > 0 && admitted < tried);
}

/// Hands texts drawn by a fixed generator to the token minifier where they
/// are admitted.
fn draw(seed: u64, alphabet: &[char], max_len: usize, rounds: usize) -> (u64, u64) {
    let mut state = seed;
    let mut next = move || {
        state ^= state << 13;
        state ^= state >> 7;
        state ^= state << 17;
        state
    };
    let mut admitted: u64 = 0;
    let mut refused: u64 = 0;
    for _ in 0..rounds {
        let len = (next() % (max_len as u64 + 1)) as usize;
        let text: Vec<char> = (0..len).map(|_| alphabet[(next() % alphabet.len() as u64) as usize]).collect();
        if is_script_minifiable(&text) {
            admitted += 1;
            let s: String = text.iter().collect();
            let _ = minifier::js::minify(&s).to_string();
        } else {
            refused += 1;
        }
    }
    (admitted, refused)
}

#[test]
fn admitted_drawn_texts_pass_the_token_minifier() {
    let alphabet = [
        '/', '/', '/', '*', '.', '.', '\n', '\n', '\r', ' ', ' ', '\t', 'a', 'g', 'i', '1', '0', '`', '$',
        '{', '}', '"', '\'', '\\', '!', ';', '=', '<', '>', '(', ')', '[', ']', ',', ':', '?', '+', '-',
        '%', '&', '|', 'é', '越',
    ];
    let (admitted, refused) = draw(0x9e3779b97f4a7c15, &alphabet, 24, 400_000);
    assert!(admitted > 1000 && refused > 1000);
    let (admitted, refused) = draw(0x2545f4914f6cdd1d, &alphabet, 80, 100_000);
    assert!(admitted > 100 && refused > 1000);
}

#[test]
fn admitted_drawn_slashes_pass_the_token_minifier() {
    let alphabet = ['/', '/', '.', '\n', ' ', 'a', '*', '\\', '=', ')', '"', '`', 'é'];
    let (admitted, refused) = draw(0xdeadbeefcafef00d, &alphabet, 30, 400_000);
    assert!(admitted > 1000 && refused > 1000);
}
