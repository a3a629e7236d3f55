use solhunt::source::{
    content_until_end, get_last_start_index, offset_until_end,
    get_finding_content, get_finding_content_after, get_finding_content_arrow,
    get_finding_content_before, get_finding_content_middle, get_position, get_source_map,
};
use semver::Version;
use solhunt::version::{version_from_source, version_requirement, ComparatorOp, VersionSourceError};

const SOLHUNT: &str = "Solhunt is a
new static analyzer,
it lets you write
detection modules
and it's fast!";

#[test]
fn parses_versions() {
    let source = String::from("pragma solidity ^0.8.0;");
    let req = version_from_source(source).unwrap().req;

    assert!(!req.matches(&Version::new(0, 7, 0)));
    assert!(req.matches(&Version::new(0, 8, 0)));
    assert!(!req.matches(&Version::new(0, 9, 0)));

    let source = String::from("pragma solidity =0.8.0;");
    let req = version_from_source(source).unwrap().req;

    assert!(!req.matches(&Version::new(0, 7, 0)));
    assert!(req.matches(&Version::new(0, 8, 0)));
    assert!(!req.matches(&Version::new(0, 8, 1)));

    let source = String::from("pragma solidity 0.8.0;");
    let req = version_from_source(source).unwrap().req;

    assert!(!req.matches(&Version::new(0, 7, 0)));
    assert!(req.matches(&Version::new(0, 8, 0)));
    assert!(!req.matches(&Version::new(0, 8, 1)));

    let source = String::from("pragma solidity >=0.8.0;");
    let req = version_from_source(source).unwrap().req;

    assert!(!req.matches(&Version::new(0, 7, 0)));
    assert!(req.matches(&Version::new(0, 8, 0)));
    assert!(req.matches(&Version::new(0, 9, 0)));
    assert!(req.matches(&Version::new(1, 0, 0)));

    let source = String::from("pragma solidity >=0.5.0 <0.8.0;");
    let req = version_from_source(source).unwrap().req;

    assert!(req.matches(&Version::new(0, 7, 0)));
    assert!(!req.matches(&Version::new(0, 8, 0)));

    let source = String::from("pragma solidity >=0.5.0 <=0.8.0;");
    let req = version_from_source(source).unwrap().req;

    assert!(req.matches(&Version::new(0, 7, 0)));
    assert!(req.matches(&Version::new(0, 8, 0)));
}

#[test]
fn get_smallest() {}

#[test]
fn correct_source_maps() {
    let content = String::from(
        "Hello, world
Goodbye, world",
    );

    let source_map = get_source_map(&content);

    assert_eq!(source_map.len(), 2);
    assert_eq!(source_map[0], 13);
    assert_eq!(source_map[1], 27);

    let content = String::from(SOLHUNT);

    let source_map = get_source_map(&content);

    assert_eq!(source_map.len(), 5);
    assert_eq!(source_map[0], 13);
    assert_eq!(source_map[1], 34);
    assert_eq!(source_map[2], 52);
    assert_eq!(source_map[3], 70);
    assert_eq!(source_map[4], 84);
}

#[test]
fn correct_position_map() {
    let content = String::from(SOLHUNT);

    let source_map = get_source_map(&content);
    assert_eq!(get_position(13, &source_map), (1, 14));
    assert_eq!(get_position(14, &source_map), (2, 1));
    assert_eq!(get_position(25, &source_map), (2, 12));
    assert_eq!(get_position(72, &source_map), (5, 2));
}

#[test]
fn outputs_before_finding_content() {
    let content = String::from(SOLHUNT);

    let file_bytes = content.as_bytes();

    let before_content = get_finding_content_before(file_bytes, 14);
    assert_eq!(before_content, String::from("Solhunt is a\n"));

    let before_content = get_finding_content_before(file_bytes, 0);
    assert_eq!(before_content, String::from(""));
}

#[test]
fn outputs_middle_finding_content() {
    let content = String::from(SOLHUNT);

    let file_bytes = content.as_bytes();

    let middle_content = get_finding_content_middle(file_bytes, 14, 3);
    assert_eq!(middle_content, String::from("new static analyzer,\n"));

    let middle_content = get_finding_content_middle(file_bytes, 14, 24);
    assert_eq!(
        middle_content,
        String::from(
            "new static analyzer,
it lets you write\n"
        )
    );

    let middle_content = get_finding_content_middle(file_bytes, 0, 6);
    assert_eq!(middle_content, String::from("Solhunt is a\n"));
}

#[test]
fn outputs_after_finding_content() {
    let content = String::from(SOLHUNT);

    let file_bytes = content.as_bytes();

    let after_content = get_finding_content_after(file_bytes, 14, 3);
    assert_eq!(after_content, String::from("it lets you write\n"));

    let after_content = get_finding_content_after(file_bytes, 0, 5);
    assert_eq!(after_content, String::from("new static analyzer,\n"));
}

#[test]
fn outputs_finding_content() {
    let content = String::from(SOLHUNT);

    let finding_content = get_finding_content(content.clone(), 14, 6);
    assert_eq!(
        finding_content,
        String::from(
            "Solhunt is a
new static analyzer,
it lets you write\n"
        )
    );

    let finding_content = get_finding_content(content.clone(), 0, 6);
    assert_eq!(
        finding_content,
        String::from(
            "Solhunt is a
new static analyzer,\n"
        )
    );

    let finding_content = get_finding_content(content.clone(), 35, 2);
    assert_eq!(
        finding_content,
        String::from(
            "new static analyzer,
it lets you write
detection modules\n"
        )
    );

    let finding_content = get_finding_content(content.clone(), 71, 38);
    assert_eq!(
        finding_content,
        String::from(
            "detection modules
and it's fast!"
        )
    );

    let finding_content = get_finding_content(content, 18, 21);
    assert_eq!(
        finding_content,
        String::from(
            "Solhunt is a
new static analyzer,
it lets you write
detection modules\n"
        )
    );
}

#[test]
fn source_map_of_empty_and_crlf_content() {
    assert!(get_source_map(&String::new()).is_empty());
    // a CRLF line end is marked once, at the carriage return
    assert_eq!(get_source_map(&String::from("ab\r\ncd")), vec![3, 6]);
    assert_eq!(get_source_map(&String::from("a\r\nb")), vec![2, 4]);
    assert_eq!(get_source_map(&String::from("a\r\nb\r\n")), vec![2, 5, 6]);
    // a lone line feed or carriage return
    assert_eq!(get_source_map(&String::from("a\nb\rc")), vec![2, 5]);
    // the last entry is the length of the file
    assert_eq!(get_source_map(&String::from("x\n")), vec![2]);
}

#[test]
fn position_beyond_the_last_line() {
    let source_map = get_source_map(&String::from(SOLHUNT));
    assert_eq!(get_position(85, &source_map), (0, 0));
    assert_eq!(get_position(0, &source_map), (1, 1));
    assert_eq!(get_position(0, &[]), (0, 0));
}

#[test]
fn arrow_marks_the_finding_lines() {
    let content = String::from(SOLHUNT);
    assert_eq!(
        get_finding_content_arrow(content.clone(), 14, 6),
        String::from("  Solhunt is a\n> new static analyzer,\n  it lets you write\n")
    );
    assert_eq!(
        get_finding_content_arrow(content, 0, 6),
        String::from("  > Solhunt is a\n  new static analyzer,\n")
    );
}

#[test]
fn version_from_source_without_pragma() {
    assert!(version_from_source(String::from("contract A {}")).is_err());
}

#[test]
fn line_boundaries() {
    let bytes = SOLHUNT.as_bytes();
    assert_eq!(get_last_start_index(bytes, 20), 13);
    assert_eq!(get_last_start_index(bytes, 13), 13);
    assert_eq!(get_last_start_index(bytes, 12), 0);
    assert_eq!(offset_until_end(bytes, 14), 33);
    assert_eq!(offset_until_end(bytes, 12), 12);
    assert_eq!(offset_until_end(bytes, 75), 84);
    assert_eq!(content_until_end(bytes, 13), "new static analyzer,\n");
    assert_eq!(content_until_end(bytes, 70), "and it's fast!");
    assert_eq!(content_until_end(bytes, 84), "");
}

#[test]
fn every_byte_has_a_line() {
    let source_map = get_source_map(&String::from(SOLHUNT));
    let mut previous_line = 1;
    for start in 0..SOLHUNT.len() {
        let (line, width) = get_position(start, &source_map);
        assert!(line >= 1 && line <= source_map.len() && width >= 1, "{start}");
        assert!(start <= source_map[line - 1]);
        assert!(line >= previous_line);
        previous_line = line;
    }
}

#[test]
fn middle_holds_the_last_line() {
    let file_bytes = SOLHUNT.as_bytes();
    assert_eq!(get_finding_content_middle(file_bytes, 71, 2), String::from("and it's fast!"));
    assert_eq!(get_finding_content_middle(file_bytes, 71, 13), String::from("and it's fast!"));
    assert_eq!(get_finding_content_middle("a\nbc".as_bytes(), 2, 1), String::from("bc"));
    assert_eq!(
        get_finding_content(String::from(SOLHUNT), 71, 2),
        String::from("detection modules\nand it's fast!")
    );
}

#[test]
fn finds_the_first_version_pragma() {
    let req = version_requirement(String::from(
        "// x\npragma  solidity\t>=0.5.0 <0.8.0; pragma solidity 0.4.0;",
    ))
    .unwrap();
    assert_eq!(req.comparators.len(), 2);
    assert_eq!(req.comparators[0].op, ComparatorOp::GreaterEq);
    assert_eq!(req.comparators[1].op, ComparatorOp::Less);
    assert!(matches!(
        version_requirement(String::from("pragma solidity 0.8\n.0;")),
        Err(VersionSourceError::PragmaNotFound)
    ));
    assert!(matches!(
        version_requirement(String::from("pragmasolidity 0.8.0;")),
        Err(VersionSourceError::PragmaNotFound)
    ));
    assert!(matches!(
        version_requirement(String::from("pragma solidity ;;")),
        Err(VersionSourceError::Solc(_))
    ));
}

#[test]
fn reads_the_comparators_of_a_pragma() {
    let req = version_from_source(String::from("pragma solidity >=0.5.0 <0.8.0;")).unwrap();
    assert_eq!(req.comparators.len(), 2);
    assert_eq!(req.comparators[0].op, ComparatorOp::GreaterEq);
    assert_eq!(
        (req.comparators[0].major, req.comparators[0].minor, req.comparators[0].patch),
        (0, Some(5), Some(0))
    );
    assert_eq!(req.comparators[1].op, ComparatorOp::Less);
    assert_eq!(req.comparators[1].minor, Some(8));

    let req = version_from_source(String::from("pragma solidity 0.8.1;")).unwrap();
    assert_eq!(req.comparators.len(), 1);
    assert_eq!(req.comparators[0].op, ComparatorOp::Exact);
    assert_eq!(req.comparators[0].patch, Some(1));
}

#[test]
fn refuses_what_cannot_be_read() {
    assert!(matches!(
        version_requirement(String::from("pragma solidity x;")),
        Err(VersionSourceError::Unsupported(t)) if t == "x"
    ));
    assert!(matches!(
        version_requirement(String::from("pragma solidity é0.8.0;")),
        Err(VersionSourceError::Unsupported(_))
    ));
    assert!(matches!(
        version_requirement(String::from("contract A {}")),
        Err(VersionSourceError::PragmaNotFound)
    ));
    assert!(matches!(
        version_requirement(String::from("pragma solidity 0.8.a;")),
        Err(VersionSourceError::Solc(_))
    ));
    let req = version_requirement(String::from("pragma solidity ^0.8.0;")).unwrap();
    assert_eq!(req.comparators[0].op, ComparatorOp::Caret);
    assert!(req.req.matches(&Version::new(0, 8, 5)));
}

#[test]
fn arrow_excerpt_without_its_marks_is_the_plain_excerpt() {
    for (start, length) in [(14, 3), (14, 24), (40, 2)] {
        let arrow = get_finding_content_arrow(String::from(SOLHUNT), start, length);
        let unmarked: String = arrow.split_inclusive('\n').map(|l| &l[2..]).collect();
        assert_eq!(unmarked, get_finding_content(String::from(SOLHUNT), start, length));
    }
}

#[test]
fn the_end_of_a_file_is_on_its_last_line() {
    let lines = get_source_map(&String::from(SOLHUNT));
    assert_eq!(get_position(SOLHUNT.len(), &lines), (5, 14));
    assert_eq!(get_position(SOLHUNT.len() - 1, &lines), (5, 13));
}

#[test]
fn an_excerpt_is_one_run_of_lines() {
    // the finding starts on the second line and ends on the third
    assert_eq!(
        get_finding_content_middle(SOLHUNT.as_bytes(), 30, 5),
        String::from("new static analyzer,\nit lets you write\n")
    );
    assert_eq!(
        get_finding_content(String::from(SOLHUNT), 30, 5),
        String::from("Solhunt is a\nnew static analyzer,\nit lets you write\ndetection modules\n")
    );
    for (start, length) in [(0, 3), (14, 3), (30, 5), (40, 20), (60, 20)] {
        let excerpt = get_finding_content(String::from(SOLHUNT), start, length);
        let at = SOLHUNT.find(excerpt.as_str()).unwrap();
        assert!(at == 0 || SOLHUNT.as_bytes()[at - 1] == b'\n');
        assert!(at <= start && start < at + excerpt.len());
    }
}
