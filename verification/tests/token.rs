use tabloid::{Case, ConfigurationError, Requirement, RequirementType};

fn requirement(ty: RequirementType, case: Case) -> Result<Requirement, ConfigurationError> {
    Ok(Requirement { ty, case })
}

#[test]
fn category_keys_are_recognised() {
    assert_eq!(RequirementType::parse("t"), Ok(RequirementType::Noun));
    assert_eq!(RequirementType::parse("f"), Ok(RequirementType::Flavour));
    assert_eq!(RequirementType::parse("v"), Ok(RequirementType::Verb));
    assert_eq!(RequirementType::parse("demo"), Ok(RequirementType::Demographic));
}

#[test]
fn unknown_category_keys_are_refused() {
    for key in ["bogus", "", "T", "tt", "dem", "demo ", "demos", "n", "d", "démo"] {
        assert_eq!(
            RequirementType::parse(key),
            Err(ConfigurationError::UnknownCategory),
            "key {key:?}"
        );
    }
}

#[test]
fn case_codes_are_recognised() {
    assert_eq!(Case::parse("_"), Ok(Case::Pass));
    assert_eq!(Case::parse("p"), Ok(Case::Pass));
    assert_eq!(Case::parse("c"), Ok(Case::Capitalise));
    assert_eq!(Case::parse("u"), Ok(Case::Upper));
    assert_eq!(Case::parse("l"), Ok(Case::Lower));
}

#[test]
fn unknown_case_codes_are_refused() {
    for code in ["", "x", "U", "cc", "pass", " c", "ç"] {
        assert_eq!(Case::parse(code), Err(ConfigurationError::UnknownCase), "code {code:?}");
    }
}

#[test]
fn verb_in_upper_case() {
    assert_eq!(Requirement::parse("v:u"), requirement(RequirementType::Verb, Case::Upper));
}

#[test]
fn topic_without_case_passes_through() {
    assert_eq!(Requirement::parse("t"), requirement(RequirementType::Noun, Case::Pass));
}

#[test]
fn demographic_capitalised() {
    assert_eq!(
        Requirement::parse("demo:c"),
        requirement(RequirementType::Demographic, Case::Capitalise)
    );
}

#[test]
fn explicit_pass_codes() {
    assert_eq!(Requirement::parse("t:_"), requirement(RequirementType::Noun, Case::Pass));
    assert_eq!(Requirement::parse("t:p"), requirement(RequirementType::Noun, Case::Pass));
    assert_eq!(Requirement::parse("f:l"), requirement(RequirementType::Flavour, Case::Lower));
}

#[test]
fn bogus_category_is_a_configuration_error() {
    assert_eq!(Requirement::parse("bogus"), Err(ConfigurationError::UnknownCategory));
    assert_eq!(Requirement::parse("bogus:u"), Err(ConfigurationError::UnknownCategory));
}

#[test]
fn empty_token_is_a_configuration_error() {
    assert_eq!(Requirement::parse(""), Err(ConfigurationError::EmptyToken));
}

#[test]
fn unknown_case_is_a_configuration_error() {
    assert_eq!(Requirement::parse("t:z"), Err(ConfigurationError::UnknownCase));
    assert_eq!(Requirement::parse("t:uu"), Err(ConfigurationError::UnknownCase));
}

#[test]
fn category_is_judged_before_case() {
    assert_eq!(Requirement::parse("x:y"), Err(ConfigurationError::UnknownCategory));
}

#[test]
fn colon_with_nothing_after_it_means_pass() {
    assert_eq!(Requirement::parse("t:"), requirement(RequirementType::Noun, Case::Pass));
    assert_eq!(
        Requirement::parse("demo:"),
        requirement(RequirementType::Demographic, Case::Pass)
    );
}

#[test]
fn a_second_colon_is_no_part_of_any_case_code() {
    assert_eq!(Requirement::parse("t:u:x"), Err(ConfigurationError::UnknownCase));
    assert_eq!(Requirement::parse("t:c:x"), Err(ConfigurationError::UnknownCase));
    assert_eq!(Requirement::parse("v:u:"), Err(ConfigurationError::UnknownCase));
    assert_eq!(Requirement::parse("v:u::"), Err(ConfigurationError::UnknownCase));
    assert_eq!(Requirement::parse("t::"), Err(ConfigurationError::UnknownCase));
    assert_eq!(Requirement::parse("t::u"), Err(ConfigurationError::UnknownCase));
    assert_eq!(Requirement::parse("demo:c:c"), Err(ConfigurationError::UnknownCase));
}

#[test]
fn the_case_code_is_all_that_follows_the_colon() {
    assert_eq!(Requirement::parse("t:u"), requirement(RequirementType::Noun, Case::Upper));
    assert_eq!(Requirement::parse("t:uu"), Err(ConfigurationError::UnknownCase));
    assert_eq!(Requirement::parse("t:u "), Err(ConfigurationError::UnknownCase));
    assert_eq!(Requirement::parse("t:up"), Err(ConfigurationError::UnknownCase));
}

#[test]
fn missing_key_before_the_colon_is_refused() {
    assert_eq!(Requirement::parse(":"), Err(ConfigurationError::UnknownCategory));
    assert_eq!(Requirement::parse(":c"), Err(ConfigurationError::UnknownCategory));
    assert_eq!(Requirement::parse("::"), Err(ConfigurationError::UnknownCategory));
}

#[test]
fn keys_are_not_trimmed() {
    assert_eq!(Requirement::parse(" t"), Err(ConfigurationError::UnknownCategory));
    assert_eq!(Requirement::parse("t "), Err(ConfigurationError::UnknownCategory));
    assert_eq!(Requirement::parse("t: c"), Err(ConfigurationError::UnknownCase));
}
