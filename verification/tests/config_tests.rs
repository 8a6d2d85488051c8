use bite::config::{
    alias_of, classify, current_address, find_section, parse, persist_address, rewrite_address,
    token_of, ConfigSection, LineKind,
};
use bite::failure::Failure;

fn sample() -> Vec<u8> {
    b"# bite: i-0123456789abcdef0\nHost dev\n  HostName 10.0.0.1\n  User ec2-user\n\n\nHost other\n\tHostName 10.0.0.2\n"
        .to_vec()
}

fn two_hosts() -> Vec<u8> {
    b"Host a\n  HostName 1.1.1.1\n\nHost b\n  HostName 2.2.2.2\n".to_vec()
}

fn rows(lines: &[&str]) -> Vec<Vec<u8>> {
    lines.iter().map(|l| l.as_bytes().to_vec()).collect()
}

#[test]
fn parse_reads_every_field_of_each_section() {
    let sections = parse(&sample());
    let expected = vec![
        ConfigSection {
            alias: b"dev".to_vec(),
            raw_lines: rows(&[
                "# bite: i-0123456789abcdef0",
                "Host dev",
                "  HostName 10.0.0.1",
                "  User ec2-user",
            ]),
            first_line: 0,
            address_line_index: Some(2),
            cross_reference_token: Some(b"i-0123456789abcdef0".to_vec()),
        },
        ConfigSection {
            alias: b"other".to_vec(),
            raw_lines: rows(&["Host other", "\tHostName 10.0.0.2"]),
            first_line: 6,
            address_line_index: Some(7),
            cross_reference_token: None,
        },
    ];
    assert_eq!(sections, expected);
}

#[test]
fn parse_of_an_empty_file_is_empty() {
    assert_eq!(parse(b""), Vec::<ConfigSection>::new());
}

#[test]
fn parse_of_blank_lines_alone_is_empty() {
    assert_eq!(parse(b"\n\n   \n\t\n"), Vec::<ConfigSection>::new());
    assert_eq!(parse(b"\r\n\r\n"), Vec::<ConfigSection>::new());
}

#[test]
fn parse_never_gives_an_empty_section() {
    let sections = parse(b"\n\n\nHost a\n\n\n\n\nHost b\n\n\n");
    assert_eq!(sections.len(), 2);
    for s in sections.iter() {
        assert!(!s.raw_lines.is_empty());
    }
    assert_eq!(sections[0].first_line, 3);
    assert_eq!(sections[1].first_line, 8);
}

#[test]
fn parse_takes_a_line_of_white_space_for_a_separator() {
    let sections = parse(b"Host a\n \t \nHost b\n");
    assert_eq!(sections.len(), 2);
    assert_eq!(sections[0].alias, b"a".to_vec());
    assert_eq!(sections[0].raw_lines, rows(&["Host a"]));
    assert_eq!(sections[1].alias, b"b".to_vec());
    assert_eq!(sections[1].first_line, 2);
}

#[test]
fn parse_takes_a_line_of_no_break_space_for_a_separator() {
    let contents = "Host a\n\u{a0}\nHost b\n";
    let sections = parse(contents.as_bytes());
    assert_eq!(sections.len(), 2);
    assert_eq!(sections[0].alias, b"a".to_vec());
    assert_eq!(sections[0].raw_lines, rows(&["Host a"]));
    assert_eq!(sections[0].first_line, 0);
    assert_eq!(sections[1].alias, b"b".to_vec());
    assert_eq!(sections[1].raw_lines, rows(&["Host b"]));
    assert_eq!(sections[1].first_line, 2);
    assert_eq!(find_section(&sections, b"a"), Some(0));
}

#[test]
fn parse_takes_any_line_of_white_space_for_a_separator() {
    for blank in ["\u{85}", "\u{1680}", "\u{2000}\u{200a}", " \u{2028}\t", "\u{2029}\u{202f}\u{205f}\u{3000}"] {
        let contents = format!("Host a\n{blank}\nHost b\n");
        let sections = parse(contents.as_bytes());
        assert_eq!(sections.len(), 2);
        assert_eq!(sections[1].first_line, 2);
    }
    for other in ["\u{200b}", "\u{feff}", "\u{a0}.", "\u{180e}"] {
        let contents = format!("Host a\n{other}\nHost b\n");
        let sections = parse(contents.as_bytes());
        assert_eq!(sections.len(), 1);
        assert_eq!(sections[0].raw_lines.len(), 3);
    }
}

#[test]
fn parse_reads_an_address_line_behind_an_ideographic_space() {
    let contents = "Host a\n\u{3000}HostName 1.1.1.1\n";
    let sections = parse(contents.as_bytes());
    assert_eq!(sections.len(), 1);
    assert_eq!(sections[0].alias, b"a".to_vec());
    assert_eq!(sections[0].address_line_index, Some(1));
    assert_eq!(sections[0].raw_lines, rows(&["Host a", "\u{3000}HostName 1.1.1.1"]));
}

#[test]
fn rewrite_keeps_an_indentation_of_ideographic_space() {
    let contents = "Host a\n\u{3000}HostName 1.1.1.1\n";
    assert_eq!(
        rewrite_address(contents.as_bytes(), Some(1), b"9.9.9.9"),
        Ok("Host a\n\u{3000}HostName 9.9.9.9\n".as_bytes().to_vec())
    );
    assert_eq!(current_address(contents.as_bytes(), Some(1)), Some(b"1.1.1.1".to_vec()));
    let mixed = " \u{a0}\t\u{2003}HostName old\u{a0}\r\n";
    assert_eq!(
        rewrite_address(mixed.as_bytes(), Some(0), b"new"),
        Ok(" \u{a0}\t\u{2003}HostName new\r\n".as_bytes().to_vec())
    );
}

#[test]
fn parse_trims_no_break_space_from_the_alias() {
    let sections = parse("Host web\u{a0}\n".as_bytes());
    assert_eq!(sections[0].alias, b"web".to_vec());
    assert_eq!(find_section(&sections, b"web"), Some(0));
    let both = parse("\u{3000}Host \u{2003}web-2\u{a0}\u{85}\n".as_bytes());
    assert_eq!(both[0].alias, b"web-2".to_vec());
    let inner = parse("Host a\u{a0}b\n".as_bytes());
    assert_eq!(inner[0].alias, "a\u{a0}b".as_bytes().to_vec());
}

#[test]
fn parse_trims_no_break_space_from_the_token() {
    let sections = parse("# bite: \u{a0}i-abc\u{2028}\nHost a\n".as_bytes());
    assert_eq!(sections[0].cross_reference_token, Some(b"i-abc".to_vec()));
}

#[test]
fn the_keyword_is_followed_by_a_plain_space() {
    assert_eq!(classify("Host\u{a0}web".as_bytes()), LineKind::Other);
    assert_eq!(classify("HostName\u{a0}1.1.1.1".as_bytes()), LineKind::Other);
    assert_eq!(classify("\u{a0}Host web".as_bytes()), LineKind::Entry);
    assert_eq!(classify("\u{2003}HostName 1.1.1.1\u{3000}".as_bytes()), LineKind::Address);
    assert_eq!(classify("\u{a0}# bite: i-1".as_bytes()), LineKind::Other);
}

#[test]
fn parse_groups_lines_as_trimming_does() {
    let texts = [
        "Host a\n\u{a0}\nHost b\n",
        "\u{3000}\n\nHost a\n  HostName 1.1.1.1\n \u{2003} \n\u{85}Host b\u{a0}\nUser x\n",
        "# bite: i-1\nHost \u{e9}t\u{e9}\n\u{a0}HostName 1.1.1.1\n\nHost \u{4e2d}\n",
        "Host a\r\n\u{2028}\r\nHost b\r\n",
    ];
    for text in texts {
        let mut expected: Vec<Vec<Vec<u8>>> = Vec::new();
        let mut open = false;
        for line in text.lines() {
            if line.trim().is_empty() {
                open = false;
            } else {
                if !open {
                    expected.push(Vec::new());
                    open = true;
                }
                expected.last_mut().unwrap().push(line.as_bytes().to_vec());
            }
        }
        let found: Vec<Vec<Vec<u8>>> =
            parse(text.as_bytes()).into_iter().map(|s| s.raw_lines).collect();
        assert_eq!(found, expected);
    }
}

#[test]
fn parse_keeps_unknown_lines_as_they_are() {
    let sections = parse(b"  # a comment \nHost a\n    ProxyJump  gate \n");
    assert_eq!(sections.len(), 1);
    assert_eq!(sections[0].raw_lines, rows(&["  # a comment ", "Host a", "    ProxyJump  gate "]));
    assert_eq!(sections[0].address_line_index, None);
    assert_eq!(sections[0].cross_reference_token, None);
}

#[test]
fn parse_trims_the_alias() {
    let sections = parse(b"   Host    web-1  \t\n");
    assert_eq!(sections[0].alias, b"web-1".to_vec());
}

#[test]
fn parse_leaves_the_alias_empty_without_an_entry_line() {
    let sections = parse(b"# only a comment\n  HostName 1.2.3.4\n");
    assert_eq!(sections.len(), 1);
    assert_eq!(sections[0].alias, Vec::<u8>::new());
    assert_eq!(sections[0].address_line_index, Some(1));
}

#[test]
fn parse_lets_the_last_entry_and_address_line_win() {
    let sections = parse(b"Host first\nHostName 1.1.1.1\nHost second\nHostName 2.2.2.2\nUser x\n");
    assert_eq!(sections.len(), 1);
    assert_eq!(sections[0].alias, b"second".to_vec());
    assert_eq!(sections[0].address_line_index, Some(3));
}

#[test]
fn parse_lets_the_first_marker_win() {
    let sections = parse(b"# bite: i-one\n# bite:   i-two  \nHost a\n");
    assert_eq!(sections[0].cross_reference_token, Some(b"i-one".to_vec()));
}

#[test]
fn parse_trims_the_token() {
    let sections = parse(b"# bite:    i-abc \t\nHost a\n");
    assert_eq!(sections[0].cross_reference_token, Some(b"i-abc".to_vec()));
}

#[test]
fn parse_reads_a_marker_only_at_the_start_of_a_line() {
    let sections = parse(b"  # bite: i-abc\nHost a\n");
    assert_eq!(sections[0].cross_reference_token, None);
}

#[test]
fn parse_counts_address_lines_over_the_whole_file() {
    let sections = parse(&two_hosts());
    assert_eq!(sections.len(), 2);
    assert_eq!(sections[0].address_line_index, Some(1));
    assert_eq!(sections[1].address_line_index, Some(4));
    assert_eq!(sections[1].first_line, 3);
}

#[test]
fn parse_strips_carriage_returns_before_line_feeds() {
    let sections = parse(b"Host a\r\n  HostName 1.1.1.1\r\n\r\nHost b\r\n");
    assert_eq!(sections.len(), 2);
    assert_eq!(sections[0].raw_lines, rows(&["Host a", "  HostName 1.1.1.1"]));
    assert_eq!(sections[1].raw_lines, rows(&["Host b"]));
}

#[test]
fn parse_reads_a_last_line_without_line_feed() {
    let sections = parse(b"Host a\nHostName 1.1.1.1");
    assert_eq!(sections[0].raw_lines, rows(&["Host a", "HostName 1.1.1.1"]));
    assert_eq!(sections[0].address_line_index, Some(1));
}

#[test]
fn parse_agrees_with_the_lines_of_the_text() {
    let text = String::from_utf8(sample()).unwrap();
    let all: Vec<&str> = text.lines().collect();
    for s in parse(&sample()) {
        for (k, line) in s.raw_lines.iter().enumerate() {
            assert_eq!(line.as_slice(), all[s.first_line + k].as_bytes());
        }
    }
}

#[test]
fn classify_tells_the_kinds_apart() {
    assert_eq!(classify(b"Host dev"), LineKind::Entry);
    assert_eq!(classify(b"   Host dev"), LineKind::Entry);
    assert_eq!(classify(b"HostName 1.2.3.4"), LineKind::Address);
    assert_eq!(classify(b"\t HostName 1.2.3.4  "), LineKind::Address);
    assert_eq!(classify(b"# bite: i-1"), LineKind::Marker);
    assert_eq!(classify(b" # bite: i-1"), LineKind::Other);
    assert_eq!(classify(b"#bite: i-1"), LineKind::Other);
    assert_eq!(classify(b"Host"), LineKind::Other);
    assert_eq!(classify(b"Host "), LineKind::Other);
    assert_eq!(classify(b"HostName "), LineKind::Other);
    assert_eq!(classify(b"HostName"), LineKind::Other);
    assert_eq!(classify(b"Hostname x"), LineKind::Other);
    assert_eq!(classify(b"User ec2-user"), LineKind::Other);
    assert_eq!(classify(b""), LineKind::Other);
}

#[test]
fn alias_of_reads_what_follows_the_keyword() {
    assert_eq!(alias_of(b"Host dev"), Some(b"dev".to_vec()));
    assert_eq!(alias_of(b"  Host   a b  "), Some(b"a b".to_vec()));
    assert_eq!(alias_of(b"HostName dev"), None);
    assert_eq!(alias_of(b"Host"), None);
    assert_eq!(alias_of(b""), None);
}

#[test]
fn token_of_reads_what_follows_the_colon() {
    assert_eq!(token_of(b"# bite: i-0abc"), Some(b"i-0abc".to_vec()));
    assert_eq!(token_of(b"# bite: "), Some(Vec::<u8>::new()));
    assert_eq!(token_of(b" # bite: i-0abc"), None);
    assert_eq!(token_of(b"# bite:i-0abc"), None);
    assert_eq!(token_of(b""), None);
}

#[test]
fn find_section_takes_the_first_of_an_alias() {
    let sections = parse(b"Host a\nUser one\n\nHost b\n\nHost a\nUser two\n");
    assert_eq!(find_section(&sections, b"a"), Some(0));
    assert_eq!(find_section(&sections, b"b"), Some(1));
    assert_eq!(find_section(&sections, b"c"), None);
    assert_eq!(find_section(&sections, b""), None);
    assert_eq!(find_section(&Vec::new(), b"a"), None);
}

#[test]
fn rewrite_changes_one_value_and_keeps_the_rest() {
    let out = rewrite_address(&two_hosts(), Some(4), b"9.9.9.9");
    assert_eq!(out, Ok(b"Host a\n  HostName 1.1.1.1\n\nHost b\n  HostName 9.9.9.9\n".to_vec()));
}

#[test]
fn rewrite_of_the_second_host_leaves_the_first_alone() {
    let before = parse(&two_hosts());
    let b = before[find_section(&before, b"b").unwrap()].clone();
    let out = persist_address(&two_hosts(), &b, "9.9.9.9").unwrap();
    let after = parse(&out);
    assert_eq!(after.len(), 2);
    assert_eq!(after[0], before[0]);
    assert_eq!(after[1].raw_lines, rows(&["Host b", "  HostName 9.9.9.9"]));
    assert_eq!(after[1].alias, b"b".to_vec());
    assert_eq!(after[1].address_line_index, Some(4));
}

#[test]
fn rewrite_keeps_the_indentation() {
    let out = rewrite_address(b"Host a\n\t  \tHostName old\nUser x\n", Some(1), b"new.example");
    assert_eq!(out, Ok(b"Host a\n\t  \tHostName new.example\nUser x\n".to_vec()));
    let flush = rewrite_address(b"HostName old\n", Some(0), b"new");
    assert_eq!(flush, Ok(b"HostName new\n".to_vec()));
}

#[test]
fn rewrite_keeps_the_line_endings() {
    let out = rewrite_address(b"Host a\r\n  HostName 1.1.1.1\r\nUser x\r\n", Some(1), b"2.2.2.2");
    assert_eq!(out, Ok(b"Host a\r\n  HostName 2.2.2.2\r\nUser x\r\n".to_vec()));
    let open = rewrite_address(b"Host a\n  HostName 1.1.1.1", Some(1), b"2.2.2.2");
    assert_eq!(open, Ok(b"Host a\n  HostName 2.2.2.2".to_vec()));
}

#[test]
fn rewrite_replaces_all_that_follows_the_keyword() {
    let out = rewrite_address(b"  HostName   1.1.1.1   # old\n", Some(0), b"2.2.2.2");
    assert_eq!(out, Ok(b"  HostName 2.2.2.2\n".to_vec()));
}

#[test]
fn rewrite_takes_a_longer_and_a_shorter_value() {
    let longer = rewrite_address(&two_hosts(), Some(1), b"2001:db8::1234:5678");
    assert_eq!(
        longer,
        Ok(b"Host a\n  HostName 2001:db8::1234:5678\n\nHost b\n  HostName 2.2.2.2\n".to_vec())
    );
    let shorter = rewrite_address(&two_hosts(), Some(1), b"");
    assert_eq!(shorter, Ok(b"Host a\n  HostName \n\nHost b\n  HostName 2.2.2.2\n".to_vec()));
}

#[test]
fn rewrite_without_a_target_line_fails() {
    assert_eq!(rewrite_address(&two_hosts(), None, b"9.9.9.9"), Err(Failure::MissingTargetLine));
}

#[test]
fn rewrite_of_a_line_that_declares_no_address_fails() {
    assert_eq!(rewrite_address(&two_hosts(), Some(0), b"9.9.9.9"), Err(Failure::MissingTargetLine));
    assert_eq!(rewrite_address(&two_hosts(), Some(2), b"9.9.9.9"), Err(Failure::MissingTargetLine));
}

#[test]
fn rewrite_behind_the_last_line_fails() {
    assert_eq!(rewrite_address(&two_hosts(), Some(5), b"9.9.9.9"), Err(Failure::MissingTargetLine));
    assert_eq!(
        rewrite_address(&two_hosts(), Some(usize::MAX), b"9.9.9.9"),
        Err(Failure::MissingTargetLine)
    );
    assert_eq!(rewrite_address(b"", Some(0), b"9.9.9.9"), Err(Failure::MissingTargetLine));
}

#[test]
fn persist_without_an_address_line_fails() {
    let contents = b"# bite: i-1\nHost a\nUser x\n".to_vec();
    let sections = parse(&contents);
    assert_eq!(sections[0].address_line_index, None);
    assert_eq!(persist_address(&contents, &sections[0], "1.2.3.4"), Err(Failure::MissingTargetLine));
}

#[test]
fn current_address_reads_the_rest_of_the_line() {
    assert_eq!(current_address(&two_hosts(), Some(1)), Some(b"1.1.1.1".to_vec()));
    assert_eq!(current_address(&two_hosts(), Some(4)), Some(b"2.2.2.2".to_vec()));
    assert_eq!(current_address(b" HostName  a b \r\n", Some(0)), Some(b" a b ".to_vec()));
    assert_eq!(current_address(&two_hosts(), Some(0)), None);
    assert_eq!(current_address(&two_hosts(), Some(9)), None);
    assert_eq!(current_address(&two_hosts(), None), None);
}

fn round_trips(contents: &[u8]) {
    let sections = parse(contents);
    for s in sections.iter() {
        if let Some(value) = current_address(contents, s.address_line_index) {
            assert_eq!(rewrite_address(contents, s.address_line_index, &value), Ok(contents.to_vec()));
        } else {
            assert_eq!(s.address_line_index, None);
        }
    }
}

#[test]
fn rewrite_to_the_same_value_gives_the_file_back() {
    round_trips(&sample());
    round_trips(&two_hosts());
    round_trips(b"Host a\r\n  HostName 1.1.1.1  \r\n\r\nHost b\r\n\tHostName   x \t\r\n");
    round_trips(b"Host a\n  HostName 1.1.1.1");
    round_trips(b"\n\n  HostName 1.1.1.1 # note\n\n\n");
    round_trips(b"HostName \xff\xfe\n");
    round_trips("Host a\n\u{3000}HostName 1.1.1.1\u{a0}\n\u{a0}\nHost b\n\u{2003}HostName \u{a0}x\n".as_bytes());
}

#[test]
fn every_recorded_address_line_can_be_rewritten() {
    let contents = sample();
    for s in parse(&contents) {
        if s.address_line_index.is_some() {
            assert!(rewrite_address(&contents, s.address_line_index, b"x").is_ok());
        }
    }
}
