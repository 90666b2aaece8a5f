use miniboosts::sample::text::csv_record;
use miniboosts::sample::text::index_and_feature;
use miniboosts::sample::text::is_whitespace;
use miniboosts::sample::text::parse_index;
use miniboosts::sample::text::split;
use miniboosts::sample::text::split_whitespace;
use miniboosts::sample::text::svmlight_record;
use miniboosts::sample::text::trim;

fn chars(text: &str) -> Vec<char> {
    text.chars().collect()
}

fn cut(text: &[char], stretch: (usize, usize)) -> String {
    text[stretch.0..stretch.1].iter().collect()
}

fn lines() -> Vec<&'static str> {
    vec![
        "",
        ",",
        "a",
        "a,b",
        "a,,b",
        ",a,",
        " 1.5 ,\t2 , 3\u{a0}",
        "1.2,0.5,-1,2",
        "  \t ",
        "+1 1:0.5   3:2\t7:1e-3 ",
        "\u{3000}x\u{2003}y\u{85}",
        "a:b:c",
        ":",
        "::",
    ]
}

#[test]
fn whitespace_agrees_with_char() {
    for code in 0..0x3100_u32 {
        if let Some(c) = char::from_u32(code) {
            assert_eq!(is_whitespace(c), c.is_whitespace());
        }
    }
    assert!(!is_whitespace('\u{feff}'));
    assert!(!is_whitespace('\u{10ffff}'));
}

#[test]
fn split_agrees_with_str() {
    for line in lines() {
        for separator in [',', ':'] {
            let text = chars(line);
            let got: Vec<String> =
                split(&text, separator, 0, text.len()).into_iter().map(|p| cut(&text, p)).collect();
            let want: Vec<String> = line.split(separator).map(String::from).collect();
            assert_eq!(got, want);
        }
    }
}

#[test]
fn split_of_a_stretch() {
    let text = chars("xx,a,b,yy");
    assert_eq!(split(&text, ',', 3, 6), vec![(3, 4), (5, 6)]);
    assert_eq!(split(&text, ',', 2, 2), vec![(2, 2)]);
    assert_eq!(split(&text, ',', 2, 3), vec![(2, 2), (3, 3)]);
}

#[test]
fn trim_agrees_with_str() {
    for line in lines() {
        let text = chars(line);
        let got = trim(&text, 0, text.len());
        assert_eq!(cut(&text, got), line.trim());
    }
    let text = chars("  \t ");
    assert_eq!(trim(&text, 0, 4), (4, 4));
    assert_eq!(trim(&text, 1, 3), (3, 3));
    let text = chars(" a b ");
    assert_eq!(trim(&text, 0, 5), (1, 4));
    assert_eq!(trim(&text, 2, 5), (3, 4));
}

#[test]
fn words_agree_with_str() {
    for line in lines() {
        let text = chars(line);
        let got: Vec<String> =
            split_whitespace(&text).into_iter().map(|p| cut(&text, p)).collect();
        let want: Vec<String> = line.split_whitespace().map(String::from).collect();
        assert_eq!(got, want);
    }
    let text = chars(" ab  c ");
    assert_eq!(split_whitespace(&text), vec![(1, 3), (5, 6)]);
}

#[test]
fn parse_index_agrees_with_str() {
    let words = vec![
        "0",
        "7",
        "12",
        "007",
        "+3",
        "+",
        "",
        "-1",
        "1e3",
        "1.0",
        " 1",
        "12a",
        "18446744073709551615",
        "18446744073709551616",
        "99999999999999999999999",
        "++1",
        "1+",
    ];
    for word in words {
        let text = chars(word);
        assert_eq!(parse_index(&text, 0, text.len()), word.parse::<usize>().ok());
    }
    let text = chars("ab123cd");
    assert_eq!(parse_index(&text, 2, 5), Some(123));
    assert_eq!(parse_index(&text, 2, 2), None);
}

#[test]
fn index_and_feature_reads_a_word() {
    let text = chars("3:0.5");
    assert_eq!(index_and_feature(&text, 0, text.len()), Some((3, (2, 5))));
    let text = chars(" 12 : -1e3 :x");
    let (index, value) = index_and_feature(&text, 0, text.len()).unwrap();
    assert_eq!(index, 12);
    assert_eq!(cut(&text, value), "-1e3");
    let text = chars("1 7:2.5 9:1");
    assert_eq!(index_and_feature(&text, 2, 7), Some((7, (4, 7))));
    let text = chars("7:");
    assert_eq!(index_and_feature(&text, 0, text.len()), Some((7, (2, 2))));
}

#[test]
fn index_and_feature_rejects_a_word() {
    for word in ["", "3", "x:1", ":1", "-1:2", "1.5:2", "18446744073709551616:1"] {
        let text = chars(word);
        assert_eq!(index_and_feature(&text, 0, text.len()), None);
    }
}

#[test]
fn csv_record_trims_every_field() {
    for line in lines() {
        let text = chars(line);
        let got: Vec<String> = csv_record(&text).into_iter().map(|p| cut(&text, p)).collect();
        let want: Vec<String> = line.split(',').map(|x| x.trim().to_string()).collect();
        assert_eq!(got, want);
    }
    let text = chars(" 1.5 ,\t2 , 3 ");
    assert_eq!(csv_record(&text), vec![(1, 4), (7, 8), (11, 12)]);
}

#[test]
fn svmlight_record_reads_target_and_words() {
    let text = chars("+1 1:0.5   3:2\t7:1e-3 ");
    let (target, entries) = svmlight_record(&text).unwrap();
    assert_eq!(cut(&text, target), "+1");
    let got: Vec<(usize, String)> =
        entries.into_iter().map(|(i, value)| (i, cut(&text, value))).collect();
    assert_eq!(
        got,
        vec![(1, "0.5".to_string()), (3, "2".to_string()), (7, "1e-3".to_string())]
    );
    let text = chars("  -1  ");
    assert_eq!(svmlight_record(&text), Some(((2, 4), Vec::new())));
}

#[test]
fn svmlight_record_rejects_a_malformed_line() {
    for line in ["", "   ", "1 2", "1 a:2", "1 3:0.5 4", "1 -3:0.5"] {
        assert_eq!(svmlight_record(&chars(line)), None);
    }
}
