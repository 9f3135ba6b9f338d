use planet_tiles::generation::world::World;

fn sample() -> World {
    World {
        name: "Earth".to_string(),
        id: 42,
        seed: "abc123".to_string(),
        sea_level: "50.5".to_string(),
        temperature: "20".to_string(),
        humidity: "0.125".to_string(),
    }
}

#[test]
fn a_world_is_written_as_one_line() {
    assert_eq!(
        sample().to_string(),
        "ID: 42 Name: Earth Seed: abc123 Sea Level: 50.5 Temperature: 20 Humidity: 0.125"
    );
}

#[test]
fn a_world_is_written_as_json_with_string_values() {
    assert_eq!(
        sample().to_json(),
        "{\"name\":\"Earth\",\"id\":\"42\",\"seed\":\"abc123\",\"sea_level\":\"50.5\",\"temperature\":\"20\",\"humidity\":\"0.125\"}"
    );
}

#[test]
fn the_json_of_a_world_reads_back() {
    let world = World {
        name: "New Terra 7".to_string(),
        id: 18446744073709551615,
        seed: "Zx9aQ2mN4pL7wE1r".to_string(),
        sea_level: "37.25".to_string(),
        temperature: "99.9999".to_string(),
        humidity: "0".to_string(),
    };
    let parsed = json::parse(&world.to_json()).unwrap();
    assert!(parsed.is_object());
    assert_eq!(parsed.len(), 6);
    assert_eq!(parsed["name"].as_str(), Some("New Terra 7"));
    assert_eq!(parsed["id"].as_str(), Some("18446744073709551615"));
    assert_eq!(parsed["id"].as_str().unwrap().parse::<u64>().unwrap(), world.id);
    assert_eq!(parsed["seed"].as_str(), Some("Zx9aQ2mN4pL7wE1r"));
    assert_eq!(parsed["sea_level"].as_str(), Some("37.25"));
    assert_eq!(parsed["temperature"].as_str(), Some("99.9999"));
    assert_eq!(parsed["humidity"].as_str(), Some("0"));
}

#[test]
fn the_json_of_a_world_escapes_its_texts() {
    let mut world = sample();
    world.name = "a\"b".to_string();
    assert_eq!(
        world.to_json(),
        "{\"name\":\"a\\\"b\",\"id\":\"42\",\"seed\":\"abc123\",\"sea_level\":\"50.5\",\"temperature\":\"20\",\"humidity\":\"0.125\"}"
    );
    let parsed = json::parse(&world.to_json()).unwrap();
    assert_eq!(parsed["name"].as_str(), Some("a\"b"));
}

#[test]
fn a_world_named_with_a_quotation_mark_reads_back() {
    let mut world = sample();
    world.id = 7;
    world.name = "\"".to_string();
    let text = world.to_json();
    assert!(text.starts_with("{\"name\":\"\\\"\",\"id\":\"7\","));
    let parsed = json::parse(&text).unwrap();
    assert_eq!(parsed["name"].as_str(), Some("\""));
    assert_eq!(parsed["id"].as_str(), Some("7"));
}

#[test]
fn any_text_of_a_world_reads_back_from_its_json() {
    let texts = [
        "", "plain", "\"", "\\", "\\\"", "a\nb", "tab\there", "\r\n", "\u{0}", "\u{1}\u{1f}",
        "\u{8}\u{c}", "\u{7f}", "é ü 世界", "{\"name\":\"x\"}", "\\u0041", "\\n", "/",
        "\",\"id\":\"0",
    ];
    for name in texts.iter() {
        for seed in texts.iter() {
            let world = World {
                name: name.to_string(),
                id: 18446744073709551615,
                seed: seed.to_string(),
                sea_level: name.to_string(),
                temperature: "1".to_string(),
                humidity: seed.to_string(),
            };
            let parsed = json::parse(&world.to_json()).unwrap();
            assert!(parsed.is_object());
            assert_eq!(parsed.len(), 6);
            assert_eq!(parsed["name"].as_str(), Some(*name));
            assert_eq!(parsed["seed"].as_str(), Some(*seed));
            assert_eq!(parsed["id"].as_str(), Some("18446744073709551615"));
            assert_eq!(parsed["sea_level"].as_str(), Some(*name));
            assert_eq!(parsed["temperature"].as_str(), Some("1"));
            assert_eq!(parsed["humidity"].as_str(), Some(*seed));
        }
    }
}

#[test]
fn a_clone_is_equal() {
    let world = sample();
    assert_eq!(world.clone(), world);
}

#[test]
fn the_default_world_is_blank() {
    let world = World::default();
    assert_eq!(world.name, "");
    assert_eq!(world.id, 0);
    assert_eq!(world.seed, "");
    assert_eq!(world.sea_level, "0");
    assert_eq!(world.temperature, "0");
    assert_eq!(world.humidity, "0");
}
