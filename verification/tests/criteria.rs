use matcher::{criteria_from_token, parse_criteria, RankCriteria};

#[test]
fn parses_each_plain_token() {
    assert_eq!(parse_criteria("score"), Some(RankCriteria::Score));
    assert_eq!(parse_criteria("index"), Some(RankCriteria::Index));
    assert_eq!(parse_criteria("begin"), Some(RankCriteria::Begin));
    assert_eq!(parse_criteria("end"), Some(RankCriteria::End));
}

#[test]
fn parses_each_negated_token() {
    assert_eq!(parse_criteria("-score"), Some(RankCriteria::NegScore));
    assert_eq!(parse_criteria("-index"), Some(RankCriteria::NegIndex));
    assert_eq!(parse_criteria("-begin"), Some(RankCriteria::NegBegin));
    assert_eq!(parse_criteria("-end"), Some(RankCriteria::NegEnd));
}

#[test]
fn parsing_ignores_case() {
    assert_eq!(parse_criteria("Score"), Some(RankCriteria::Score));
    assert_eq!(parse_criteria("SCORE"), Some(RankCriteria::Score));
    assert_eq!(parse_criteria("InDeX"), Some(RankCriteria::Index));
    assert_eq!(parse_criteria("-BEGIN"), Some(RankCriteria::NegBegin));
    assert_eq!(parse_criteria("-End"), Some(RankCriteria::NegEnd));
}

#[test]
fn unknown_text_names_no_criterion() {
    assert_eq!(parse_criteria(""), None);
    assert_eq!(parse_criteria("-"), None);
    assert_eq!(parse_criteria("scores"), None);
    assert_eq!(parse_criteria("scor"), None);
    assert_eq!(parse_criteria(" score"), None);
    assert_eq!(parse_criteria("score "), None);
    assert_eq!(parse_criteria("--score"), None);
    assert_eq!(parse_criteria("+score"), None);
    assert_eq!(parse_criteria("length"), None);
    assert_eq!(parse_criteria("-length"), None);
}

#[test]
fn text_outside_ascii_names_no_criterion() {
    assert_eq!(parse_criteria("sc\u{f6}re"), None);
    assert_eq!(parse_criteria("\u{130}ndex"), None);
    assert_eq!(parse_criteria("end\u{e9}"), None);
}

#[test]
fn a_token_is_read_as_it_stands() {
    assert_eq!(criteria_from_token("score"), Some(RankCriteria::Score));
    assert_eq!(criteria_from_token("-end"), Some(RankCriteria::NegEnd));
    assert_eq!(criteria_from_token("Score"), None);
    assert_eq!(criteria_from_token("END"), None);
    assert_eq!(criteria_from_token(""), None);
}

#[test]
fn a_token_that_extends_another_is_told_apart() {
    assert_eq!(criteria_from_token("end"), Some(RankCriteria::End));
    assert_eq!(criteria_from_token("en"), None);
    assert_eq!(criteria_from_token("ends"), None);
    assert_eq!(criteria_from_token("-en"), None);
    assert_eq!(criteria_from_token("index"), Some(RankCriteria::Index));
    assert_eq!(criteria_from_token("inde"), None);
}
