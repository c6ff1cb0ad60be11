use path_analyzer::analysis::{
    analyze_path, make_suggestion, suggest_for_segment, suggest_optimizations,
    OptimizationSuggestion, PathEntry,
};
use path_analyzer::detect::{
    detect_software, literal_of, match_signatures, matches_signature, normalize_pattern,
    software_signatures, Signature,
};
use path_analyzer::expand::{expand_env_vars, find_value, holds_token};
use path_analyzer::parse::parse_path;

fn vars(pairs: &[(&str, &str)]) -> Vec<(String, String)> {
    pairs.iter().map(|(k, v)| (k.to_string(), v.to_string())).collect()
}

#[test]
fn parse_splits_trims_and_drops_empty() {
    assert_eq!(parse_path("C:\\a; C:\\b ;;  ;C:\\c"), vec!["C:\\a", "C:\\b", "C:\\c"]);
}

#[test]
fn parse_of_empty_and_blank_is_empty() {
    assert!(parse_path("").is_empty());
    assert!(parse_path(";;;").is_empty());
    assert!(parse_path("  ;\t; \u{3000} ").is_empty());
}

#[test]
fn parse_keeps_order_and_duplicates() {
    assert_eq!(parse_path("b;a;b;c;a"), vec!["b", "a", "b", "c", "a"]);
}

#[test]
fn parse_keeps_inner_whitespace_and_other_characters() {
    assert_eq!(
        parse_path(" C:\\Program Files\\Git\\cmd ;%JAVA_HOME%\\bin;\u{8def}\u{5f84}"),
        vec!["C:\\Program Files\\Git\\cmd", "%JAVA_HOME%\\bin", "\u{8def}\u{5f84}"]
    );
}

#[test]
fn parse_has_no_empty_segment() {
    for s in ["", ";", "a;;b", " ; a ;", "x; ;y;\n;z", ";;a"] {
        for seg in parse_path(s) {
            assert!(!seg.is_empty());
            assert_eq!(seg.trim(), seg);
        }
    }
}

#[test]
fn parse_of_joined_parse_is_the_same() {
    for s in ["", ";", "a;;b", " ; a ;", "x; ;y;\n;z", ";;a", " C:\\a b ; D:\\c ;;", "single"] {
        let once = parse_path(s);
        let again = parse_path(&once.join(";"));
        assert_eq!(once, again);
    }
}

#[test]
fn expand_without_percent_changes_nothing() {
    let env = vars(&[("A", "1"), ("", "x")]);
    for s in ["", "C:\\Windows", "plain text", "A", "\u{8def}"] {
        assert_eq!(expand_env_vars(s, &env), s);
    }
}

#[test]
fn expand_replaces_defined_tokens() {
    let env = vars(&[("JAVA_HOME", "C:\\jdk"), ("X", "1")]);
    assert_eq!(expand_env_vars("%JAVA_HOME%\\bin", &env), "C:\\jdk\\bin");
    assert_eq!(expand_env_vars("%X%%X%-%X%", &env), "11-1");
    assert_eq!(expand_env_vars("a%X%b", &env), "a1b");
}

#[test]
fn expand_leaves_undefined_tokens() {
    let env = vars(&[("X", "1")]);
    assert_eq!(expand_env_vars("%NOPE%\\bin", &env), "%NOPE%\\bin");
    assert_eq!(expand_env_vars("%", &env), "%");
    assert_eq!(expand_env_vars("%%", &env), "%%");
    assert_eq!(expand_env_vars("100%", &env), "100%");
    assert_eq!(expand_env_vars("%X", &env), "%X");
    assert_eq!(expand_env_vars("%x%", &env), "%x%");
}

#[test]
fn expand_closing_percent_of_undefined_opens_the_next() {
    let env = vars(&[("BAR", "v")]);
    assert_eq!(expand_env_vars("%FOO%BAR%", &env), "%FOOv");
}

#[test]
fn expand_does_not_read_values_again() {
    let env = vars(&[("A", "%B%"), ("B", "deep")]);
    assert_eq!(expand_env_vars("%A%", &env), "%B%");
    assert_eq!(expand_env_vars("%A%;%B%", &env), "%B%;deep");
    let env = vars(&[("B", "deep"), ("A", "%B%")]);
    assert_eq!(expand_env_vars("%A%", &env), "%B%");
}

#[test]
fn expand_takes_the_first_definition() {
    let env = vars(&[("A", "one"), ("A", "two")]);
    assert_eq!(expand_env_vars("%A%", &env), "one");
}

#[test]
fn find_value_finds_by_exact_name() {
    let env = vars(&[("A", "one"), ("AB", "two")]);
    let name: Vec<char> = "AB".chars().collect();
    assert_eq!(find_value(&env, &name), Some("two".chars().collect()));
    let name: Vec<char> = "a".chars().collect();
    assert_eq!(find_value(&env, &name), None);
}

#[test]
fn normalize_pattern_lowercases_and_reduces() {
    assert_eq!(normalize_pattern("java[\\\\/]jdk"), "java\\jdk");
    assert_eq!(normalize_pattern("java.*[\\\\/]bin"), "java.*\\bin");
    assert_eq!(normalize_pattern("Python3\\d+"), "python3");
    assert_eq!(normalize_pattern("Git[\\\\/]cmd"), "git\\cmd");
    assert_eq!(normalize_pattern("MATLAB[\\\\/]R\\d+"), "matlab\\r");
    assert_eq!(normalize_pattern("CUDA[\\\\/]v\\d+"), "cuda\\v");
    assert_eq!(normalize_pattern("gradle"), "gradle");
}

#[test]
fn literal_of_keeps_case() {
    assert_eq!(literal_of("A[\\\\/]B\\d+C"), "A\\BC");
    assert_eq!(literal_of(""), "");
}

#[test]
fn table_is_the_known_one() {
    let table = software_signatures();
    let got: Vec<(&str, Vec<&str>)> = table
        .iter()
        .map(|s| (s.var_name, s.needles.iter().map(|n| n.as_str()).collect()))
        .collect();
    assert_eq!(
        got,
        vec![
            ("JAVA_HOME", vec!["java\\jdk", "java.*\\bin"]),
            ("PYTHON_HOME", vec!["python3", "python"]),
            ("NODE_HOME", vec!["nodejs", "node"]),
            ("MAVEN_HOME", vec!["apache-maven", "maven"]),
            ("GIT_HOME", vec!["git\\cmd", "git"]),
            ("MATLAB_HOME", vec!["matlab\\r"]),
            ("GRADLE_HOME", vec!["gradle"]),
            ("CUDA_HOME", vec!["cuda\\v"]),
        ]
    );
}

#[test]
fn detect_java() {
    assert_eq!(
        detect_software("C:\\Program Files\\Java\\jdk-17\\bin"),
        Some(("JAVA_HOME", "C:\\Program Files\\Java\\jdk-17".to_string()))
    );
}

#[test]
fn detect_is_case_insensitive() {
    assert_eq!(
        detect_software("C:\\PROGRAM FILES\\GIT\\CMD"),
        Some(("GIT_HOME", "C:\\PROGRAM FILES\\GIT".to_string()))
    );
    assert_eq!(
        detect_software("D:\\Tools\\NodeJS\\"),
        Some(("NODE_HOME", "D:\\Tools\\NodeJS".to_string()))
    );
}

#[test]
fn detect_each_known_software() {
    let cases = [
        ("C:\\Python311\\Scripts", "PYTHON_HOME", "C:\\Python311"),
        ("C:\\Program Files\\nodejs\\bin", "NODE_HOME", "C:\\Program Files\\nodejs"),
        ("C:\\apache-maven-3.9\\bin", "MAVEN_HOME", "C:\\apache-maven-3.9"),
        ("C:\\Program Files\\Git\\cmd", "GIT_HOME", "C:\\Program Files\\Git"),
        ("C:\\MATLAB\\R2023a\\bin", "MATLAB_HOME", "C:\\MATLAB\\R2023a"),
        ("C:\\gradle-8\\bin", "GRADLE_HOME", "C:\\gradle-8"),
        ("C:\\NVIDIA\\CUDA\\v12.1\\bin", "CUDA_HOME", "C:\\NVIDIA\\CUDA\\v12.1"),
    ];
    for (path, name, base) in cases {
        assert_eq!(detect_software(path), Some((name, base.to_string())), "{}", path);
    }
}

#[test]
fn detect_first_line_of_the_table_wins() {
    assert_eq!(
        detect_software("C:\\python\\java\\jdk\\bin"),
        Some(("JAVA_HOME", "C:\\python\\java\\jdk".to_string()))
    );
    assert_eq!(
        detect_software("C:\\gradle\\git\\bin"),
        Some(("GIT_HOME", "C:\\gradle\\git".to_string()))
    );
}

#[test]
fn detect_rewrites_slashes_in_the_base() {
    assert_eq!(
        detect_software("C:/Program Files/nodejs/bin"),
        Some(("NODE_HOME", "C:\\Program Files\\nodejs".to_string()))
    );
}

#[test]
fn detect_does_not_treat_templates_as_patterns() {
    assert_eq!(detect_software("C:/Java/jdk/bin"), None);
    assert_eq!(detect_software("C:\\Javas\\x\\bin"), None);
    assert_eq!(detect_software("C:\\MATLAB\\2023\\bin"), None);
    assert_eq!(
        detect_software("C:\\java.*\\bin\\x"),
        Some(("JAVA_HOME", "C:\\java.*\\bin".to_string()))
    );
}

#[test]
fn detect_nothing_known() {
    assert_eq!(detect_software("C:\\Windows\\System32"), None);
    assert_eq!(detect_software(""), None);
}

#[test]
fn detect_needs_two_components() {
    assert_eq!(detect_software("git"), None);
    assert_eq!(detect_software("python"), None);
    assert_eq!(detect_software("git\\"), Some(("GIT_HOME", "git".to_string())));
}

#[test]
fn match_signatures_on_a_table_of_its_own() {
    let table = vec![
        Signature { var_name: "ONE", needles: vec!["zzz".to_string(), "one".to_string()] },
        Signature { var_name: "TWO", needles: vec!["tw".to_string()] },
    ];
    assert_eq!(match_signatures("X\\One\\Two", "x\\one\\two", &table), Some(("ONE", "X\\One".to_string())));
    assert_eq!(match_signatures("X\\Two", "x\\two", &table), Some(("TWO", "X".to_string())));
    assert_eq!(match_signatures("X\\Two", "X\\TWO", &table), None);
    assert_eq!(match_signatures("two", "two", &table), None);
    assert_eq!(match_signatures("a\\b", "two", &table), Some(("TWO", "a".to_string())));
    assert_eq!(match_signatures("a\\b", "a\\b", &Vec::new()), None);
    let hay: Vec<char> = "x-one".chars().collect();
    assert!(matches_signature(&hay, &table[0]));
    assert!(!matches_signature(&hay, &table[1]));
}

#[test]
fn analyze_reports_each_segment() {
    let got = analyze_path("C:\\a; %X%\\b ;;c".to_string(), vec![true, false, true]);
    assert_eq!(
        got,
        Ok(vec![
            PathEntry { path: "C:\\a".to_string(), valid: true, has_variable: false },
            PathEntry { path: "%X%\\b".to_string(), valid: false, has_variable: true },
            PathEntry { path: "c".to_string(), valid: true, has_variable: false },
        ])
    );
}

#[test]
fn analyze_of_empty_is_empty() {
    assert_eq!(analyze_path("".to_string(), vec![]), Ok(vec![]));
    assert_eq!(analyze_path(" ; ;".to_string(), vec![]), Ok(vec![]));
}

#[test]
fn analyze_refuses_a_validity_of_another_length() {
    let message = "validity does not match the segments".to_string();
    assert_eq!(analyze_path("a;b".to_string(), vec![true]), Err(message.clone()));
    assert_eq!(analyze_path("".to_string(), vec![true]), Err(message.clone()));
    assert_eq!(analyze_path("a".to_string(), vec![true, true]), Err(message));
}

#[test]
fn suggest_git() {
    let got = suggest_optimizations("C:\\Program Files\\Git\\cmd".to_string(), vec![]).unwrap();
    assert_eq!(got.len(), 1);
    assert_eq!(got[0].var_name, "GIT_HOME");
    assert_eq!(got[0].new_path, "%GIT_HOME%\\cmd");
    assert_eq!(
        got[0],
        OptimizationSuggestion {
            suggestion_type: "software".to_string(),
            var_name: "GIT_HOME".to_string(),
            var_value: "C:\\Program Files\\Git".to_string(),
            old_path: "C:\\Program Files\\Git\\cmd".to_string(),
            new_path: "%GIT_HOME%\\cmd".to_string(),
            description: "\u{68c0}\u{6d4b}\u{5230} GIT \u{5b89}\u{88c5}\u{8def}\u{5f84}".to_string(),
        }
    );
}

#[test]
fn suggest_nothing_for_a_defined_variable() {
    let existing = vars(&[("GIT_HOME", "D:\\Git")]);
    let got = suggest_optimizations("C:\\Program Files\\Git\\cmd".to_string(), existing).unwrap();
    assert!(got.is_empty());
}

#[test]
fn suggest_nothing_for_a_segment_with_a_token() {
    let got = suggest_optimizations("%ROOT%\\Git\\cmd;%GIT_HOME%\\cmd".to_string(), vec![]).unwrap();
    assert!(got.is_empty());
}

#[test]
fn suggest_only_for_what_is_not_covered() {
    let existing = vars(&[("JAVA_HOME", "x"), ("git_home", "y")]);
    let got = suggest_optimizations(
        "C:\\Java\\jdk-17\\bin; C:\\Windows ;C:\\Git\\cmd;%X%\\python\\bin;C:/Python312/Scripts".to_string(),
        existing,
    )
    .unwrap();
    let names: Vec<(&str, &str, &str)> =
        got.iter().map(|s| (s.var_name.as_str(), s.old_path.as_str(), s.new_path.as_str())).collect();
    assert_eq!(
        names,
        vec![
            ("GIT_HOME", "C:\\Git\\cmd", "%GIT_HOME%\\cmd"),
            ("PYTHON_HOME", "C:/Python312/Scripts", "%PYTHON_HOME%\\Scripts"),
        ]
    );
    assert_eq!(got[1].var_value, "C:\\Python312");
    assert_eq!(got[1].description, "\u{68c0}\u{6d4b}\u{5230} PYTHON \u{5b89}\u{88c5}\u{8def}\u{5f84}");
}

#[test]
fn suggest_twice_for_two_segments_of_one_software() {
    let got = suggest_optimizations("C:\\nodejs\\bin;D:\\node\\x".to_string(), vec![]).unwrap();
    assert_eq!(got.len(), 2);
    assert_eq!(got[0].var_name, "NODE_HOME");
    assert_eq!(got[0].var_value, "C:\\nodejs");
    assert_eq!(got[1].var_name, "NODE_HOME");
    assert_eq!(got[1].var_value, "D:\\node");
}

#[test]
fn suggest_of_empty_is_empty() {
    assert_eq!(suggest_optimizations("".to_string(), vec![]), Ok(vec![]));
}

#[test]
fn suggest_for_segment_decides_by_its_arguments() {
    let none = vars(&[]);
    let found = Some(("ANY_HOME", "C:\\any".to_string()));
    let got = suggest_for_segment("C:\\any\\bin", found.clone(), &none).unwrap();
    assert_eq!(got.var_name, "ANY_HOME");
    assert_eq!(got.var_value, "C:\\any");
    assert_eq!(got.new_path, "%ANY_HOME%\\bin");
    assert_eq!(got.description, "\u{68c0}\u{6d4b}\u{5230} ANY \u{5b89}\u{88c5}\u{8def}\u{5f84}");
    assert_eq!(suggest_for_segment("C:\\any\\bin", None, &none), None);
    assert_eq!(suggest_for_segment("C:\\%a%\\bin", found.clone(), &none), None);
    assert_eq!(suggest_for_segment("C:\\any\\bin", found, &vars(&[("ANY_HOME", "")])), None);
}

#[test]
fn make_suggestion_takes_the_last_component() {
    let got = make_suggestion("C:/a/b/", "X_HOME_HOME", "base".to_string());
    assert_eq!(got.new_path, "%X_HOME_HOME%\\");
    assert_eq!(got.old_path, "C:/a/b/");
    assert_eq!(got.var_value, "base");
    assert_eq!(got.suggestion_type, "software");
    assert_eq!(got.description, "\u{68c0}\u{6d4b}\u{5230} X \u{5b89}\u{88c5}\u{8def}\u{5f84}");
    let got = make_suggestion("single", "V", "".to_string());
    assert_eq!(got.new_path, "%V%\\single");
}

#[test]
fn holds_token_needs_two_percent_signs() {
    let cs = |s: &str| -> Vec<char> { s.chars().collect() };
    assert!(holds_token(&cs("%JAVA_HOME%\\bin")));
    assert!(holds_token(&cs("a%b%c")));
    assert!(holds_token(&cs("%%")));
    assert!(holds_token(&cs("%a%b%")));
    assert!(!holds_token(&cs("C:\\100%\\bin")));
    assert!(!holds_token(&cs("%")));
    assert!(!holds_token(&cs("")));
    assert!(!holds_token(&cs("C:\\Windows")));
}

#[test]
fn analyze_does_not_take_a_single_percent_sign_for_a_token() {
    let got = analyze_path("C:\\100%\\bin".to_string(), vec![false]).unwrap();
    assert_eq!(got.len(), 1);
    assert_eq!(got[0].path, "C:\\100%\\bin");
    assert!(!got[0].has_variable);
    let got = analyze_path("%%;50%;%A%B".to_string(), vec![false, true, false]).unwrap();
    let flags: Vec<bool> = got.iter().map(|e| e.has_variable).collect();
    assert_eq!(flags, vec![true, false, true]);
}

#[test]
fn suggest_for_a_segment_with_a_single_percent_sign() {
    let got = suggest_optimizations("C:\\100%\\Git\\cmd".to_string(), vec![]).unwrap();
    assert_eq!(got.len(), 1);
    assert_eq!(got[0].var_name, "GIT_HOME");
    assert_eq!(got[0].var_value, "C:\\100%\\Git");
    assert_eq!(got[0].old_path, "C:\\100%\\Git\\cmd");
    assert_eq!(got[0].new_path, "%GIT_HOME%\\cmd");
    let found = Some(("GIT_HOME", "C:\\100%\\Git".to_string()));
    assert!(suggest_for_segment("C:\\100%\\Git\\cmd", found, &Vec::new()).is_some());
}
