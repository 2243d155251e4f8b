use mc_art_adder::painting::{Painting, PaintingsList};

fn sample_painting(id: &str, name: &str) -> Painting {
    Painting::new(
        format!("{}_drawn_by_Some_Artist.png", name),
        800,
        600,
        id.to_string(),
        format!("{}_square.png", name),
    )
}

#[test]
fn default_header_values() {
    let list = PaintingsList::default();
    assert_eq!(list.schema, "https://example.com/painting-schema.json");
    assert_eq!(list.version, "1.0");
    assert_eq!(list.id, "default_id");
    assert_eq!(list.name, "Default Paintings List");
    assert_eq!(list.description, "A default list of paintings.");
    assert!(list.paintings.is_empty());
}

#[test]
fn setters_overwrite_header_fields() {
    let mut list = PaintingsList::default();
    list.set_schema("https://example.org/schema.json".to_string());
    list.set_version("2.1".to_string());
    list.set_id("gallery".to_string());
    list.set_name("Gallery".to_string());
    list.set_description("A test gallery.".to_string());
    assert_eq!(list.schema, "https://example.org/schema.json");
    assert_eq!(list.version, "2.1");
    assert_eq!(list.id, "gallery");
    assert_eq!(list.name, "Gallery");
    assert_eq!(list.description, "A test gallery.");
}

#[test]
fn add_painting_keeps_insertion_order() {
    let mut list = PaintingsList::default();
    list.add_painting(sample_painting("a", "First"));
    list.add_painting(sample_painting("b", "Second"));
    list.add_painting(sample_painting("c", "Third"));
    assert_eq!(list.paintings.len(), 3);
    assert_eq!(list.paintings[0].id, "a");
    assert_eq!(list.paintings[1].id, "b");
    assert_eq!(list.paintings[2].id, "c");
    assert_eq!(list.paintings[1].name, "Second");
}

#[test]
fn to_json_exact_wire_form() {
    let mut list = PaintingsList::default();
    list.set_schema("S".to_string());
    list.set_version("V".to_string());
    list.set_id("I".to_string());
    list.set_name("N".to_string());
    list.set_description("D".to_string());
    let mut p = Painting::default();
    p.id = "p1".to_string();
    p.name = "Mona Lisa".to_string();
    p.artist = "Leo".to_string();
    p.filename = "f.png".to_string();
    p.width = 100;
    p.height = 200;
    list.add_painting(p);
    let json = list.to_json();
    let expected = "{\"$schema\":\"S\",\"version\":\"V\",\"id\":\"I\",\"name\":\"N\",\"description\":\"D\",\"paintings\":[{\"id\":\"p1\",\"name\":\"Mona Lisa\",\"artist\":\"Leo\",\"filename\":\"f.png\",\"width\":100,\"height\":200}]}";
    assert_eq!(json, expected);
}

#[test]
fn to_json_empty_record_list() {
    let mut list = PaintingsList::default();
    list.set_schema("s".to_string());
    list.set_version("v".to_string());
    list.set_id("i".to_string());
    list.set_name("n".to_string());
    list.set_description("d".to_string());
    assert_eq!(
        list.to_json(),
        "{\"$schema\":\"s\",\"version\":\"v\",\"id\":\"i\",\"name\":\"n\",\"description\":\"d\",\"paintings\":[]}"
    );
}

#[test]
fn serialized_manifest_round_trips_through_a_json_reader() {
    // Decoding the serialized manifest reproduces the header fields and
    // the record sequence in order; the schema URL sits under `$schema`.
    let mut list = PaintingsList::default();
    list.set_schema("https://example.com/painting-schema.json".to_string());
    list.set_version("1.2".to_string());
    list.set_id("gallery".to_string());
    list.set_name("My \"Gallery\"".to_string());
    list.set_description("Line one\nLine two\tand a \\ backslash".to_string());
    list.add_painting(sample_painting("first_id", "First_Piece"));
    list.add_painting(sample_painting("second_id", "Second_Piece"));
    let json = list.to_json();

    let v: serde_json::Value = serde_json::from_str(&json).unwrap();
    assert_eq!(
        v["$schema"].as_str().unwrap(),
        "https://example.com/painting-schema.json"
    );
    assert_eq!(v["version"].as_str().unwrap(), "1.2");
    assert_eq!(v["id"].as_str().unwrap(), "gallery");
    assert_eq!(v["name"].as_str().unwrap(), "My \"Gallery\"");
    assert_eq!(
        v["description"].as_str().unwrap(),
        "Line one\nLine two\tand a \\ backslash"
    );
    let arr = v["paintings"].as_array().unwrap();
    assert_eq!(arr.len(), 2);
    assert_eq!(arr[0]["id"].as_str().unwrap(), "first_id");
    assert_eq!(arr[0]["name"].as_str().unwrap(), "First Piece");
    assert_eq!(arr[0]["artist"].as_str().unwrap(), "Some Artist");
    assert_eq!(arr[0]["filename"].as_str().unwrap(), "First_Piece_square.png");
    assert_eq!(arr[0]["width"].as_u64().unwrap(), 800);
    assert_eq!(arr[0]["height"].as_u64().unwrap(), 600);
    assert_eq!(arr[1]["id"].as_str().unwrap(), "second_id");
    assert_eq!(arr[1]["name"].as_str().unwrap(), "Second Piece");
}

#[test]
fn from_json_round_trips_the_manifest() {
    let mut list = PaintingsList::default();
    list.set_schema("https://example.com/s.json".to_string());
    list.set_version("3.0".to_string());
    list.set_id("round_trip".to_string());
    list.set_name("Round \"Trip\"".to_string());
    list.set_description("tab\there\nand \\ there".to_string());
    list.add_painting(sample_painting("one", "First_Piece"));
    list.add_painting(sample_painting("two", "Second_Piece"));
    let decoded = PaintingsList::from_json(&list.to_json()).unwrap();
    assert_eq!(decoded.schema, list.schema);
    assert_eq!(decoded.version, list.version);
    assert_eq!(decoded.id, list.id);
    assert_eq!(decoded.name, list.name);
    assert_eq!(decoded.description, list.description);
    assert_eq!(decoded.paintings.len(), 2);
    for (a, b) in decoded.paintings.iter().zip(list.paintings.iter()) {
        assert_eq!(a.id, b.id);
        assert_eq!(a.name, b.name);
        assert_eq!(a.artist, b.artist);
        assert_eq!(a.filename, b.filename);
        assert_eq!(a.width, b.width);
        assert_eq!(a.height, b.height);
    }
}

#[test]
fn from_json_rejects_malformed_input() {
    assert!(PaintingsList::from_json("").is_none());
    assert!(PaintingsList::from_json("{}").is_none());
    assert!(PaintingsList::from_json("{\"schema\":\"s\"}").is_none());
    // An unterminated string body is refused.
    assert!(PaintingsList::from_json("{\"$schema\":\"oops").is_none());
    // Trailing text after the manifest is refused.
    let list = PaintingsList::default();
    let mut json = list.to_json();
    assert!(PaintingsList::from_json(&json).is_some());
    json.push(' ');
    assert!(PaintingsList::from_json(&json).is_none());
}

#[test]
fn control_characters_are_escaped() {
    let mut list = PaintingsList::default();
    list.set_description("bell\u{7} and newline\n".to_string());
    let json = list.to_json();
    assert!(json.contains("bell\\u0007 and newline\\n"));
    let v: serde_json::Value = serde_json::from_str(&json).unwrap();
    assert_eq!(v["description"].as_str().unwrap(), "bell\u{7} and newline\n");
}
