use screwdriver::keyvalue::{
    escape_token, read_text, CharReader, KeyValues, KeyValuesError, KvPair, MapResolver,
};

#[test]
fn test_read_text_unquoted() {
    {
        let mut iter = CharReader::new("Hello World");
        assert_eq!(read_text(&mut iter), Ok(String::from("Hello")));
        assert_eq!(iter.remaining(), String::from(" World"));
    }
    {
        let mut iter = CharReader::new("Hello{World");
        assert_eq!(read_text(&mut iter), Ok(String::from("Hello")));
        assert_eq!(iter.remaining(), String::from("{World"));
    }
    {
        let mut iter = CharReader::new("Hello\"World");
        assert_eq!(read_text(&mut iter), Ok(String::from("Hello")));
        assert_eq!(iter.remaining(), String::from("\"World"));
    }
}

#[test]
fn test_read_text_quoted() {
    {
        let mut iter = CharReader::new("\"Hello World\"");
        assert_eq!(read_text(&mut iter), Ok(String::from("Hello World")));
        assert_eq!(iter.remaining(), String::from(""));
    }
    {
        let mut iter = CharReader::new("\"Hello{World\"");
        assert_eq!(read_text(&mut iter), Ok(String::from("Hello{World")));
        assert_eq!(iter.remaining(), String::from(""));
    }
}

#[test]
fn test_read_text_escape() {
    {
        let mut iter = CharReader::new("Hello\\nbeatiful World");
        assert_eq!(read_text(&mut iter), Ok(String::from("Hello\nbeatiful")));
        assert_eq!(iter.remaining(), String::from(" World"));
    }
    {
        let mut iter = CharReader::new("Hello\\xbeatiful World");
        assert_eq!(read_text(&mut iter), Err(KeyValuesError::InvalidEscape('x')));
    }
    {
        let mut iter = CharReader::new("\"Hello\\nbeatiful World\"");
        assert_eq!(read_text(&mut iter), Ok(String::from("Hello\nbeatiful World")));
        assert_eq!(iter.remaining(), String::from(""));
    }
    {
        let mut iter = CharReader::new("\"Hello\\xbeatiful World\"");
        assert_eq!(read_text(&mut iter), Err(KeyValuesError::InvalidEscape('x')));
    }
}

#[test]
fn test_read_text_unexpected_end() {
    {
        let mut iter = CharReader::new("");
        assert_eq!(read_text(&mut iter), Err(KeyValuesError::UnexpectedEnd));
    }
    {
        let mut iter = CharReader::new("Hello\\");
        assert_eq!(read_text(&mut iter), Err(KeyValuesError::UnexpectedEnd));
    }
    {
        let mut iter = CharReader::new("\"Hello World");
        assert_eq!(read_text(&mut iter), Err(KeyValuesError::UnexpectedEnd));
    }
}

#[test]
fn test_escape_token() {
    assert_eq!(
        escape_token(&"Hello\nWorld\tHello\\World\"Hello".to_string()),
        "Hello\\nWorld\\tHello\\\\World\\\"Hello"
    )
}

fn no_includes() -> MapResolver {
    MapResolver { entries: Vec::new() }
}

#[test]
fn test_parse_internal_pairs_and_blocks() {
    let text = "\"World\" {\n  \"solid\" \"1\"\n  inner { a b }\n} top v";
    let mut reader = CharReader::new(text);
    let kv = KeyValues::parse_internal(&mut reader, &mut no_includes()).unwrap();
    let world = kv.get("world").expect("world exists");
    let solid = world.get("solid").expect("solid exists");
    assert_eq!(solid.get_value(), Some(&String::from("1")));
    let inner = world.get("inner").expect("inner exists");
    assert_eq!(inner.get("a").unwrap().get_value(), Some(&String::from("b")));
    assert_eq!(kv.get("top").unwrap().get_value(), Some(&String::from("v")));
    // names are stored lowercase; the original spelling is not found
    assert!(kv.get("World").is_none());
}

#[test]
fn test_parse_internal_comments() {
    let text = "a 1 // line comment b 2\nc 3 /* block { } */ d 4";
    let mut reader = CharReader::new(text);
    let kv = KeyValues::parse_internal(&mut reader, &mut no_includes()).unwrap();
    assert_eq!(kv.get("a").unwrap().get_value(), Some(&String::from("1")));
    assert!(kv.get("b").is_none());
    assert_eq!(kv.get("c").unwrap().get_value(), Some(&String::from("3")));
    assert_eq!(kv.get("d").unwrap().get_value(), Some(&String::from("4")));
}

#[test]
fn test_parse_internal_errors() {
    let mut r1 = CharReader::new("name {");
    assert_eq!(
        KeyValues::parse_internal(&mut r1, &mut no_includes()).unwrap_err(),
        KeyValuesError::UnexpectedEnd
    );
    let mut r2 = CharReader::new("name }");
    assert_eq!(
        KeyValues::parse_internal(&mut r2, &mut no_includes()).unwrap_err(),
        KeyValuesError::UnexpectedClosingBrace(String::from("name"))
    );
    let mut r3 = CharReader::new("#what file.txt");
    assert_eq!(
        KeyValues::parse_internal(&mut r3, &mut no_includes()).unwrap_err(),
        KeyValuesError::UnknownMacro(String::from("#what"))
    );
    let mut r4 = CharReader::new("#include missing.txt");
    assert_eq!(
        KeyValues::parse_internal(&mut r4, &mut no_includes()).unwrap_err(),
        KeyValuesError::InvalidFile(String::from("missing.txt"))
    );
}

#[test]
fn test_parse_internal_include() {
    // parse the included file first, then splice it through the resolver
    let mut inc_reader = CharReader::new("shared 42");
    let included = KeyValues::parse_internal(&mut inc_reader, &mut no_includes()).unwrap();
    let mut resolver = MapResolver { entries: Vec::new() };
    resolver.entries.push(KvPair {
        name: String::from("base.txt"),
        child: included,
    });
    let mut reader = CharReader::new("a 1 #base base.txt b 2");
    let kv = KeyValues::parse_internal(&mut reader, &mut resolver).unwrap();
    assert_eq!(kv.get("a").unwrap().get_value(), Some(&String::from("1")));
    assert_eq!(kv.get("shared").unwrap().get_value(), Some(&String::from("42")));
    assert_eq!(kv.get("b").unwrap().get_value(), Some(&String::from("2")));
}

#[test]
fn test_get_all() {
    let text = "s 1 s 2 t 3 s 4";
    let mut reader = CharReader::new(text);
    let kv = KeyValues::parse_internal(&mut reader, &mut no_includes()).unwrap();
    let all = kv.get_all("s");
    assert_eq!(all.len(), 3);
    assert_eq!(all[0].get_value(), Some(&String::from("1")));
    assert_eq!(all[1].get_value(), Some(&String::from("2")));
    assert_eq!(all[2].get_value(), Some(&String::from("4")));
    let pairs = kv.get_all_kv_pairs();
    assert_eq!(pairs.len(), 4);
    assert_eq!(pairs[2].0, &String::from("t"));
}
