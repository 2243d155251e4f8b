use mc_art_adder::filename::parse_filename;
use mc_art_adder::painting::Painting;

#[test]
fn parses_name_artist_and_id() {
    let p = parse_filename("Mona_Lisa_drawn_by_Leonardo_da_Vinci.png").unwrap();
    assert_eq!(p.display_name, "Mona Lisa");
    assert_eq!(p.artist, "Leonardo da Vinci");
    // The id joins the artist's lowercased final word to the raw name token.
    assert_eq!(p.synthetic_id, "vinci_Mona_Lisa");
}

#[test]
fn missing_delimiter_yields_none() {
    assert!(parse_filename("sunset.png").is_none());
    assert!(parse_filename("").is_none());
    assert!(parse_filename("drawn_by.png").is_none());
}

#[test]
fn splits_at_last_delimiter_occurrence() {
    // An earlier occurrence inside the name portion is preserved literally.
    let p = parse_filename("A_drawn_by_B_drawn_by_C.png").unwrap();
    assert_eq!(p.display_name, "A drawn by B");
    assert_eq!(p.artist, "C");
    assert_eq!(p.synthetic_id, "c_A_drawn_by_B");
}

#[test]
fn artist_suffix_after_double_underscore_is_dropped() {
    let p = parse_filename("Starry_Night_drawn_by_Vincent_van_Gogh__v2_final.png").unwrap();
    assert_eq!(p.display_name, "Starry Night");
    assert_eq!(p.artist, "Vincent van Gogh");
    assert_eq!(p.synthetic_id, "gogh_Starry_Night");
}

#[test]
fn path_prefix_and_extension_are_stripped() {
    let p = parse_filename("input/dir/The_Scream_drawn_by_Edvard_Munch.jpeg").unwrap();
    assert_eq!(p.display_name, "The Scream");
    assert_eq!(p.artist, "Edvard Munch");
    assert_eq!(p.synthetic_id, "munch_The_Scream");
}

#[test]
fn single_word_artist_uses_whole_name() {
    let p = parse_filename("Guernica_drawn_by_Picasso.png").unwrap();
    assert_eq!(p.display_name, "Guernica");
    assert_eq!(p.artist, "Picasso");
    assert_eq!(p.synthetic_id, "picasso_Guernica");
}

#[test]
fn painting_new_fills_record_from_filename() {
    let p = Painting::new(
        "Mona_Lisa_drawn_by_Leonardo_da_Vinci.png".to_string(),
        1080,
        1080,
        "vinci_Mona_Lisa".to_string(),
        "Mona_Lisa_drawn_by_Leonardo_da_Vinci_square.png".to_string(),
    );
    assert_eq!(p.id, "vinci_Mona_Lisa");
    assert_eq!(p.filename, "Mona_Lisa_drawn_by_Leonardo_da_Vinci_square.png");
    assert_eq!(p.name, "Mona Lisa");
    assert_eq!(p.artist, "Leonardo da Vinci");
    assert_eq!(p.width, 1080);
    assert_eq!(p.height, 1080);
}

#[test]
fn painting_new_falls_back_to_placeholder() {
    // A filename without the delimiter yields the structurally-default
    // record: empty strings and zero dimensions, never an error.
    let p = Painting::new(
        "sunset.png".to_string(),
        640,
        480,
        "some_id".to_string(),
        "sunset_square.png".to_string(),
    );
    assert_eq!(p.id, "");
    assert_eq!(p.filename, "");
    assert_eq!(p.name, "");
    assert_eq!(p.artist, "");
    assert_eq!(p.width, 0);
    assert_eq!(p.height, 0);
}
