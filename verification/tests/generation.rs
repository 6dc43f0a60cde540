use rand::rngs::StdRng;
use rand::SeedableRng;
use tabloid::{generate, run, ConfigurationError, CorpusSet, SubstituteError};

fn words(list: &[&str]) -> Vec<String> {
    list.iter().map(|word| word.to_string()).collect()
}

fn single() -> CorpusSet {
    CorpusSet {
        topics: words(&["kittens"]),
        flavours: words(&["murder"]),
        verbs: words(&["huffing"]),
        demographics: words(&["children"]),
    }
}

fn two_topics() -> CorpusSet {
    CorpusSet {
        topics: words(&["kittens", "spiders"]),
        flavours: words(&["murder"]),
        verbs: words(&["huffing"]),
        demographics: words(&["children"]),
    }
}

#[test]
fn no_iterations_no_headlines() {
    let templates = words(&["{t:c}: Sinister gateway to {t}?!", "{v} {t}"]);
    let mut rng = StdRng::seed_from_u64(3);
    assert_eq!(run(&templates, &two_topics(), 0, &mut rng), Ok(Vec::new()));
}

#[test]
fn no_iterations_on_no_templates() {
    let mut rng = StdRng::seed_from_u64(3);
    assert_eq!(run(&Vec::new(), &single(), 0, &mut rng), Ok(Vec::new()));
}

#[test]
fn no_iterations_never_reach_a_defect() {
    let templates = words(&["abc}{def"]);
    let mut rng = StdRng::seed_from_u64(3);
    assert_eq!(run(&templates, &single(), 0, &mut rng), Ok(Vec::new()));
}

#[test]
fn one_template_and_single_words_give_one_headline() {
    let templates = words(&["{t:c}: Sinister gateway to {t}?!"]);
    for iterations in [1, 2, 10, 500] {
        let mut rng = StdRng::seed_from_u64(iterations as u64);
        assert_eq!(
            run(&templates, &single(), iterations, &mut rng),
            Ok(words(&["Kittens: Sinister gateway to kittens?!"]))
        );
    }
}

#[test]
fn headlines_are_distinct_and_possible() {
    let templates = words(&["{t}", "{v} {t}"]);
    let possible = words(&["kittens", "spiders", "huffing kittens", "huffing spiders"]);
    let mut rng = StdRng::seed_from_u64(11);
    let headlines = run(&templates, &two_topics(), 300, &mut rng).unwrap();
    assert!(!headlines.is_empty() && headlines.len() <= possible.len());
    for (i, headline) in headlines.iter().enumerate() {
        assert!(possible.contains(headline), "{headline}");
        assert!(!headlines[..i].contains(headline), "{headline} twice");
    }
}

#[test]
fn headlines_stand_in_the_order_of_first_sight() {
    let templates = words(&["{t}", "{v} {t}"]);
    let corpora = two_topics();
    for seed in 0..20 {
        let mut expected: Vec<String> = Vec::new();
        let mut rng = StdRng::seed_from_u64(seed);
        for _ in 0..40 {
            let headline = generate(&templates, &corpora, &mut rng).unwrap();
            if !expected.contains(&headline) {
                expected.push(headline);
            }
        }
        let mut rng = StdRng::seed_from_u64(seed);
        assert_eq!(run(&templates, &corpora, 40, &mut rng), Ok(expected));
    }
}

#[test]
fn a_run_makes_as_many_attempts_as_asked() {
    let templates = words(&["{t}"]);
    let corpora = two_topics();
    let mut rng = StdRng::seed_from_u64(5);
    let headlines = run(&templates, &corpora, 1, &mut rng).unwrap();
    assert_eq!(headlines.len(), 1);
    let mut rng = StdRng::seed_from_u64(5);
    assert!(run(&templates, &corpora, 1000, &mut rng).unwrap().len() <= 2);
}

#[test]
fn a_defect_ends_the_run() {
    let mut rng = StdRng::seed_from_u64(9);
    assert_eq!(
        run(&words(&["abc}{def"]), &single(), 5, &mut rng),
        Err(SubstituteError::TemplateSyntax)
    );
    assert_eq!(
        run(&words(&["{bogus}"]), &single(), 1, &mut rng),
        Err(SubstituteError::Configuration(ConfigurationError::UnknownCategory))
    );
}

#[test]
fn generate_fills_one_of_the_templates() {
    let templates = words(&["{t}!", "{v}?"]);
    let corpora = single();
    let mut seen: Vec<String> = Vec::new();
    for seed in 0..100 {
        let mut rng = StdRng::seed_from_u64(seed);
        let headline = generate(&templates, &corpora, &mut rng).unwrap();
        assert!(headline == "kittens!" || headline == "huffing?", "{headline}");
        if !seen.contains(&headline) {
            seen.push(headline);
        }
    }
    assert_eq!(seen.len(), 2);
}

#[test]
fn generate_reports_the_defect_of_the_template_it_picked() {
    let templates = words(&["{t", "{t:q}"]);
    let corpora = single();
    for seed in 0..50 {
        let mut rng = StdRng::seed_from_u64(seed);
        let result = generate(&templates, &corpora, &mut rng);
        assert!(
            result == Err(SubstituteError::TemplateSyntax)
                || result == Err(SubstituteError::Configuration(ConfigurationError::UnknownCase)),
            "{result:?}"
        );
    }
}
