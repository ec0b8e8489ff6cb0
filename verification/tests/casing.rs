use stubgen::casing::{Casing, VariableNameOptions};
use stubgen::types::{LengthType, VariableCommand};

#[test]
fn test_snake_case() {
    let convert = VariableNameOptions::convert_to_snake_case;
    assert_eq!("date_of_birth", convert("dateOfBirth"));
    assert_eq!("phrase_1braille_top_row", convert("Phrase1BrailleTopRow"));
    assert_eq!("crane_asciirepresentation", convert("craneASCIIRepresentation"));
}

#[test]
fn test_kebab_case() {
    let convert = VariableNameOptions::convert_to_kebab_case;
    assert_eq!("date-of-birth", convert("dateOfBirth"));
    assert_eq!("phrase-1braille-top-row", convert("Phrase1BrailleTopRow"));
    assert_eq!("crane-asciirepresentation", convert("craneASCIIRepresentation"));
}

#[test]
fn test_pascal_case() {
    let convert = VariableNameOptions::convert_to_pascal_case;
    assert_eq!("DateOfBirth", convert("dateOfBirth"));
    assert_eq!("Phrase1BrailleTopRow", convert("Phrase1BrailleTopRow"));
    assert_eq!("CraneASCIIRepresentation", convert("craneASCIIRepresentation"));
}

#[test]
fn test_camel_case() {
    let convert = VariableNameOptions::convert_to_camel_case;
    assert_eq!("dateOfBirth", convert("dateOfBirth"));
    assert_eq!("phrase1BrailleTopRow", convert("Phrase1BrailleTopRow"));
    assert_eq!("craneASCIIRepresentation", convert("craneASCIIRepresentation"));
}

fn policy(casing: Casing, allow: Option<bool>, keywords: &[&str]) -> VariableNameOptions {
    VariableNameOptions::new(casing, allow, keywords.iter().map(|k| k.to_string()).collect())
}

#[test]
fn ident_words_splits_at_boundaries() {
    assert_eq!(
        VariableNameOptions::ident_words("craneASCIIRepresentation"),
        vec!["crane".to_string(), "asciirepresentation".to_string()]
    );
    assert_eq!(
        VariableNameOptions::ident_words("Phrase1BrailleTopRow"),
        vec!["phrase", "1braille", "top", "row"]
    );
    assert!(VariableNameOptions::ident_words("").is_empty());
    assert_eq!(VariableNameOptions::ident_words("ABC"), vec!["abc"]);
    assert_eq!(VariableNameOptions::ident_words("abc"), vec!["abc"]);
}

#[test]
fn empty_identifier_stays_empty() {
    assert_eq!(VariableNameOptions::convert_to_snake_case(""), "");
    assert_eq!(VariableNameOptions::convert_to_kebab_case(""), "");
    assert_eq!(VariableNameOptions::convert_to_pascal_case(""), "");
    assert_eq!(VariableNameOptions::convert_to_camel_case(""), "");
}

#[test]
fn convert_follows_the_policy() {
    assert_eq!(policy(Casing::SnakeCase, None, &[]).convert("dateOfBirth"), "date_of_birth");
    assert_eq!(policy(Casing::KebabCase, None, &[]).convert("dateOfBirth"), "date-of-birth");
    assert_eq!(policy(Casing::PascalCase, None, &[]).convert("dateOfBirth"), "DateOfBirth");
    assert_eq!(policy(Casing::CamelCase, None, &[]).convert("DateOfBirth"), "dateOfBirth");
}

#[test]
fn reserved_words_get_an_underscore() {
    let opts = policy(Casing::SnakeCase, None, &["class", "for"]);
    assert_eq!(opts.transform_variable_name("class"), "_class");
    assert_eq!(opts.transform_variable_name("For"), "_for");
    assert_eq!(opts.transform_variable_name("count"), "count");
    assert_eq!(opts.escape_keywords("for".to_string()), "_for");
    assert_eq!(opts.escape_keywords("fort".to_string()), "fort");
}

#[test]
fn transform_twice_is_stable_on_cased_names() {
    let opts = policy(Casing::CamelCase, None, &["class"]);
    let once = opts.transform_variable_name("Class");
    assert_eq!(once, "_class");
    assert_eq!(opts.transform_variable_name(&once), once);
    let snake = policy(Casing::SnakeCase, None, &[]);
    let once = snake.transform_variable_name("count");
    assert_eq!(snake.transform_variable_name(&once), once);
}

#[test]
fn snake_case_of_snake_case_doubles_separators() {
    let snake = policy(Casing::SnakeCase, None, &[]);
    let once = snake.transform_variable_name("dateOfBirth");
    assert_eq!(once, "date_of_birth");
    assert_eq!(snake.transform_variable_name(&once), "date__of__birth");
}

#[test]
fn uppercase_names_follow_the_policy() {
    assert_eq!(policy(Casing::SnakeCase, None, &[]).transform_variable_name("MAX"), "MAX");
    assert_eq!(policy(Casing::SnakeCase, Some(true), &[]).transform_variable_name("MAX"), "MAX");
    assert_eq!(policy(Casing::SnakeCase, Some(false), &[]).transform_variable_name("MAX"), "max");
    assert_eq!(policy(Casing::PascalCase, Some(false), &["max"]).transform_variable_name("MAX"), "_max");
    assert_eq!(policy(Casing::CamelCase, None, &[]).transform_variable_name("MAX_N"), "mAX_N");
}

#[test]
fn is_uppercase_string_checks_every_character() {
    assert!(stubgen::casing::is_uppercase_string("ABC"));
    assert!(stubgen::casing::is_uppercase_string(""));
    assert!(!stubgen::casing::is_uppercase_string("ABc"));
    assert!(!stubgen::casing::is_uppercase_string("A1"));
}

#[test]
fn variable_commands_are_transformed() {
    let opts = policy(Casing::SnakeCase, None, &["int"]);
    let var = VariableCommand::Int { name: "myCount".to_string() };
    match opts.transform_variable_command(&var) {
        VariableCommand::Int { name } => assert_eq!(name, "my_count"),
        _ => panic!("the kind of the variable changed"),
    }
    let var = VariableCommand::Word {
        name: "firstName".to_string(),
        max_length: "maxLen".to_string(),
        length_type: LengthType::Variable,
    };
    match opts.transform_variable_command(&var) {
        VariableCommand::Word { name, max_length, length_type } => {
            assert_eq!(name, "first_name");
            assert_eq!(max_length, "max_len");
            assert_eq!(length_type, LengthType::Variable);
        }
        _ => panic!("the kind of the variable changed"),
    }
    let var = VariableCommand::String {
        name: "int".to_string(),
        max_length: "256".to_string(),
        length_type: LengthType::Number,
    };
    match opts.transform_variable_command(&var) {
        VariableCommand::String { name, max_length, length_type } => {
            assert_eq!(name, "_int");
            assert_eq!(max_length, "256");
            assert_eq!(length_type, LengthType::Number);
        }
        _ => panic!("the kind of the variable changed"),
    }
}

#[test]
fn ascii_identifiers_keep_their_letters() {
    for ident in ["dateOfBirth", "Phrase1BrailleTopRow", "craneASCIIRepresentation", "a", "A_b-c9Z"] {
        let words = VariableNameOptions::ident_words(ident);
        assert_eq!(words.concat(), ident.to_ascii_lowercase());
        assert!(words.iter().all(|w| !w.is_empty()));
        let chars: Vec<char> = ident.chars().collect();
        let ends = (1..chars.len())
            .filter(|k| chars[k - 1].is_ascii_lowercase() && !chars[*k].is_ascii_lowercase())
            .count();
        assert_eq!(words.len(), ends + 1);
        let pascal = VariableNameOptions::convert_to_pascal_case(ident);
        let camel = VariableNameOptions::convert_to_camel_case(ident);
        assert_eq!(pascal.len(), ident.len());
        assert_eq!(camel.len(), ident.len());
        assert_eq!(pascal[1..], ident[1..]);
        assert_eq!(camel[1..], ident[1..]);
        assert_eq!(pascal[0..1], ident[0..1].to_uppercase());
        assert_eq!(camel[0..1], ident[0..1].to_lowercase());
    }
}

#[test]
fn other_identifiers_follow_their_alphabet() {
    assert_eq!(VariableNameOptions::convert_to_pascal_case("élan"), "Élan");
    assert_eq!(VariableNameOptions::convert_to_camel_case("Élan"), "élan");
    assert_eq!(VariableNameOptions::convert_to_snake_case("dateÉté"), "date_ét_é");
    assert_eq!(VariableNameOptions::convert_to_pascal_case("ßa"), "SSa");
    assert!(stubgen::casing::is_uppercase_string("ÉTÉ"));
    assert!(!stubgen::casing::is_uppercase_string("Été"));
    assert_eq!(
        policy(Casing::SnakeCase, Some(false), &[]).transform_variable_name("ÉTÉ"),
        "été"
    );
}

#[test]
fn case_of_letters_is_what_the_alphabet_gives() {
    for code in 0u32..0x3000 {
        if let Some(c) = char::from_u32(code) {
            let text = c.to_string();
            assert_eq!(stubgen::text::lowercase(&text), text.to_lowercase());
            assert_eq!(stubgen::text::uppercase(&text), text.to_uppercase());
            assert_eq!(stubgen::text::is_uppercase_letter(c), c.is_uppercase());
        }
    }
    for text in ["", "Hello World", "ÀÉÎ mixed ASCII", "ΣΑΣ", "straße", "ABC_def-9"] {
        assert_eq!(stubgen::text::lowercase(text), text.to_lowercase());
        assert_eq!(stubgen::text::uppercase(text), text.to_uppercase());
    }
}
