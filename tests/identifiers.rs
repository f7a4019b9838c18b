use typegen::util::{header_to_identifier, str_to_camel_case_identifier, str_to_snake_case_identifier};

#[test]
fn test_header_to_identifier() {
    assert_eq!("first", header_to_identifier("first"));
    assert_eq!("name_first", header_to_identifier("name, first"));
    assert_eq!("name_first", header_to_identifier("name (first)"));
    assert_eq!("smile", header_to_identifier("smile :)"));
    assert_eq!("smiley_face", header_to_identifier("smiley :) face"));
}

#[test]
fn test_str_to_snake_case_identifier() {
    let snake = str_to_snake_case_identifier("Species");
    assert_eq!(snake, "species");

    let snake = str_to_snake_case_identifier("Genus and Species");
    assert_eq!(snake, "genus_and_species");

    let snake = str_to_snake_case_identifier("Sepal length");
    assert_eq!(snake, "sepal_length");

    let snake = str_to_snake_case_identifier("FIRST_NAME");
    assert_eq!(snake, "first_name");
}

#[test]
fn test_str_to_camel_case_identifier() {
    let snake = str_to_camel_case_identifier("Species");
    assert_eq!(snake, "Species");

    let snake = str_to_camel_case_identifier("Genus and Species");
    assert_eq!(snake, "GenusAndSpecies");

    let snake = str_to_camel_case_identifier("Sepal length");
    assert_eq!(snake, "SepalLength");

    let snake = str_to_camel_case_identifier("I. versicolor");
    assert_eq!(snake, "IVersicolor");

    let snake = str_to_camel_case_identifier("CLASS");
    assert_eq!(snake, "Class");
}

#[test]
fn header_leading_digit_gets_underscore() {
    assert_eq!(header_to_identifier("2nd place"), "_2nd_place");
    assert_eq!(header_to_identifier("[total]"), "total");
    assert_eq!(header_to_identifier(""), "");
}

#[test]
fn snake_case_lowercases_non_ascii_uppercase() {
    assert_eq!(str_to_snake_case_identifier("ÉcoleNom"), "école_nom");
}

#[test]
fn camel_case_uppercases_word_starts() {
    assert_eq!(str_to_camel_case_identifier("iris-setosa"), "IrisSetosa");
    assert_eq!(str_to_camel_case_identifier("élan vital"), "ÉlanVital");
}
