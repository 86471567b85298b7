use aggregate::template::find_commands;
use regex::Regex;

const PATTERN: &str = r"<!--@(.+)[^\S\r\n](.+)[^\S\r\n]-->";

/// (start, end, command, argument) of each command, in byte offsets.
fn ours(text: &str) -> Vec<(usize, usize, String, String)> {
    let chars: Vec<char> = text.chars().collect();
    let byte_at = |i: usize| -> usize { text.char_indices().nth(i).map(|(b, _)| b).unwrap_or(text.len()) };
    find_commands(&chars)
        .into_iter()
        .map(|(s, split, close)| {
            let cmd: String = chars[s + 5..split].iter().collect();
            let arg: String = chars[split + 1..close].iter().collect();
            (byte_at(s), byte_at(close + 4), cmd, arg)
        })
        .collect()
}

fn theirs(text: &str) -> Vec<(usize, usize, String, String)> {
    let re = Regex::new(PATTERN).unwrap();
    re.find_iter(text)
        .map(|m| {
            let caps = re.captures(m.as_str()).unwrap();
            (m.start(), m.end(), caps[1].to_string(), caps[2].to_string())
        })
        .collect()
}

#[test]
fn commands_match_the_regex() {
    let texts = [
        "",
        "no commands here",
        "<!--@import a.html -->",
        "x <!--@import a.html --> y <!--@import-js /b.js --> z",
        "<!--@output-begin index.html -->body<!--@output-end index.html -->",
        "<!--@import a --> mid <!--@import b -->",
        "<!--@a b c d -->",
        "<!--@a b -->\n<!--@c d -->",
        "<!--@a\nb -->",
        "<!--@a\tb\t-->",
        "<!--@ab-->",
        "<!--@a b-->",
        "<!--@a  -->",
        "<!--@a b --> -->",
        "<!--@<!--@a b --> c -->",
        "<!--@x\u{a0}y\u{2003}-->",
        "<!--@x\ry\r-->",
        "<!--@é ü -->",
        "<!--@import part.html -->\r\n<!--@import other.html -->",
    ];
    for t in texts.iter() {
        assert_eq!(ours(t), theirs(t), "text {:?}", t);
    }
}

#[test]
fn commands_on_one_line_run_together() {
    let found = ours("<!--@import a --> mid <!--@import b -->");
    assert_eq!(found.len(), 1);
    assert_eq!(found[0].2, "import a --> mid <!--@import");
    assert_eq!(found[0].3, "b");
}

#[test]
fn no_command_without_both_blanks() {
    assert!(ours("<!--@ab-->").is_empty());
    assert!(ours("<!--@a b-->").is_empty());
}

#[test]
fn a_command_read_again_from_its_own_text_is_the_same() {
    let text = "x <!--@import a b c --> y\n<!--@output-begin p.html --> z -->";
    let chars: Vec<char> = text.chars().collect();
    for (s, split, close) in find_commands(&chars) {
        let own: Vec<char> = chars[s..close + 4].to_vec();
        let again = find_commands(&own);
        assert_eq!(again, vec![(0, split - s, close - s)]);
    }
}
