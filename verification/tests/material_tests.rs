use screwdriver::keyvalue::{CharReader, KeyValues, MapResolver};
use screwdriver::material::Material;

fn parse_kv(text: &str) -> KeyValues {
    let mut reader = CharReader::new(text);
    KeyValues::parse_internal(&mut reader, &mut MapResolver { entries: Vec::new() }).unwrap()
}

#[test]
fn test_parse_lightmappedgeneric() {
    let kv = parse_kv("\"LightmappedGeneric\" { \"$basetexture\" \"Brick/BrickWall003a\" }");
    let m = Material::parse(&kv).unwrap();
    // texture names come out lowercased
    assert_eq!(
        m,
        Material::LightmappedGeneric { basetexture: String::from("brick/brickwall003a") }
    );
    let textures = m.get_all_textures();
    assert_eq!(textures.len(), 1);
    assert_eq!(textures[0], &String::from("brick/brickwall003a"));
    assert!(!m.is_tool());
}

#[test]
fn test_parse_worldvertextransition() {
    let kv = parse_kv(
        "WorldVertexTransition { \"$basetexture\" \"Nature/A\" \"$basetexture2\" \"Nature/B\" }",
    );
    let m = Material::parse(&kv).unwrap();
    assert_eq!(
        m,
        Material::WorldVertexTransition {
            basetexture: String::from("nature/a"),
            basetexture2: String::from("nature/b"),
        }
    );
    assert_eq!(m.get_all_textures().len(), 2);
}

#[test]
fn test_parse_unknown_shader() {
    let kv = parse_kv("Water { \"$basetexture\" \"x\" }");
    assert!(Material::parse(&kv).is_none());
    let empty = parse_kv("");
    assert!(Material::parse(&empty).is_none());
}

#[test]
fn test_is_tool() {
    let kv = parse_kv("UnlitGeneric { \"$basetexture\" \"TOOLS/ToolsSkybox\" }");
    let m = Material::parse(&kv).unwrap();
    assert!(m.is_tool());
    assert!(!Material::MissingMaterial.is_tool());
    assert_eq!(Material::MissingMaterial.get_all_textures().len(), 0);
}
