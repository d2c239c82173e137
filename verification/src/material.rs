//! Material resolution: classifying a parsed material file by its shader
//! and extracting the texture names it draws with.

use crate::keyvalue::{
    kv_first_match, lower_of, lowercase, spec_subkeys, str_eq, KeyValues,
};
use vstd::prelude::*;

verus! {

/// A classified material: the shader it is drawn with and its texture names
/// (stored lowercased).
#[derive(Debug, PartialEq, Eq, Hash)]
pub enum Material {
    LightmappedGeneric { basetexture: String },
    UnlitGeneric { basetexture: String },
    WorldVertexTransition { basetexture: String, basetexture2: String },
    MissingMaterial,
}

/// Mathematical value of a classified material.
pub ghost enum MaterialS {
    LightmappedGeneric { basetexture: Seq<char> },
    UnlitGeneric { basetexture: Seq<char> },
    WorldVertexTransition { basetexture: Seq<char>, basetexture2: Seq<char> },
    MissingMaterial,
}

/// The value of a material.
pub open spec fn mat_view(m: Material) -> MaterialS {
    match m {
        Material::LightmappedGeneric { basetexture } => MaterialS::LightmappedGeneric {
            basetexture: basetexture@,
        },
        Material::UnlitGeneric { basetexture } => MaterialS::UnlitGeneric {
            basetexture: basetexture@,
        },
        Material::WorldVertexTransition { basetexture, basetexture2 } => MaterialS::WorldVertexTransition {
            basetexture: basetexture@,
            basetexture2: basetexture2@,
        },
        Material::MissingMaterial => MaterialS::MissingMaterial,
    }
}

impl View for Material {
    type V = MaterialS;

    open spec fn view(&self) -> MaterialS {
        mat_view(*self)
    }
}

/// The string value of the first property with this name, if it is a value.
pub open spec fn texture_of(props: KeyValues, key: Seq<char>) -> Option<Seq<char>> {
    if props is List {
        match kv_first_match(spec_subkeys(props), key, 0) {
            Some(i) => match spec_subkeys(props)[i].child {
                KeyValues::Value { value } => Some(value@),
                KeyValues::List { .. } => None,
            },
            None => None,
        }
    } else {
        None
    }
}

/// Classification of a parsed material file: the first subkey names the
/// shader (case-insensitively), its block holds the texture properties.
/// Texture names are lowercased. An empty file or an unknown shader has no
/// classification.
pub open spec fn material_parse_spec(kv: KeyValues) -> Option<MaterialS> {
    if !(kv is List) || spec_subkeys(kv).len() == 0 {
        None
    } else {
        let shader = lower_of(spec_subkeys(kv)[0].name@);
        let props = spec_subkeys(kv)[0].child;
        if shader == "lightmappedgeneric"@ {
            match texture_of(props, "$basetexture"@) {
                Some(t) => Some(MaterialS::LightmappedGeneric { basetexture: lower_of(t) }),
                None => None,
            }
        } else if shader == "unlitgeneric"@ {
            match texture_of(props, "$basetexture"@) {
                Some(t) => Some(MaterialS::UnlitGeneric { basetexture: lower_of(t) }),
                None => None,
            }
        } else if shader == "worldvertextransition"@ {
            match (texture_of(props, "$basetexture"@), texture_of(props, "$basetexture2"@)) {
                (Some(t1), Some(t2)) => Some(
                    MaterialS::WorldVertexTransition {
                        basetexture: lower_of(t1),
                        basetexture2: lower_of(t2),
                    },
                ),
                _ => None,
            }
        } else {
            None
        }
    }
}

/// `p` is a prefix of `s`.
pub open spec fn spec_starts_with(s: Seq<char>, p: Seq<char>) -> bool {
    p.len() <= s.len() && s.subrange(0, p.len() as int) == p
}

/// Whether one string starts with another.
pub fn str_starts_with(s: &str, p: &str) -> (r: bool)
    ensures
        r == spec_starts_with(s@, p@),
{
    let ns = s.unicode_len();
    let np = p.unicode_len();
    if np > ns {
        return false;
    }
    let mut i: usize = 0;
    while i < np
        invariant
            ns == s@.len(),
            np == p@.len(),
            np <= ns,
            i <= np,
            forall|t: int| 0 <= t < i ==> s@[t] == p@[t],
        decreases np - i,
    {
        if s.get_char(i) != p.get_char(i) {
            proof {
                assert(s@[i as int] != p@[i as int]);
                assert(s@.subrange(0, p@.len() as int)[i as int] == s@[i as int]);
            }
            return false;
        }
        i += 1;
    }
    proof {
        assert(s@.subrange(0, p@.len() as int) =~= p@);
    }
    true
}

impl Material {
    /// Classifies a parsed material file, mirroring `material_parse_spec`.
    /// Reading and parsing the file is the caller's concern.
    pub fn parse(kv: &KeyValues) -> (r: Option<Material>)
        ensures
            match r {
                Some(m) => material_parse_spec(*kv) == Some(m@),
                None => material_parse_spec(*kv) is None,
            },
    {
        let pairs = kv.get_all_kv_pairs();
        if pairs.len() == 0 {
            return None;
        }
        let (shader_name, props) = (pairs[0].0, pairs[0].1);
        let shader = lowercase(shader_name.as_str());
        if str_eq(shader.as_str(), "lightmappedgeneric") {
            match texture_lookup(props, "$basetexture") {
                Some(t) => Some(Material::LightmappedGeneric { basetexture: t }),
                None => None,
            }
        } else if str_eq(shader.as_str(), "unlitgeneric") {
            match texture_lookup(props, "$basetexture") {
                Some(t) => Some(Material::UnlitGeneric { basetexture: t }),
                None => None,
            }
        } else if str_eq(shader.as_str(), "worldvertextransition") {
            match (texture_lookup(props, "$basetexture"), texture_lookup(props, "$basetexture2")) {
                (Some(t1), Some(t2)) => Some(
                    Material::WorldVertexTransition { basetexture: t1, basetexture2: t2 },
                ),
                _ => None,
            }
        } else {
            None
        }
    }

    /// Every texture name the material draws with, in declaration order.
    pub fn get_all_textures(&self) -> (r: Vec<&String>)
        ensures
            match self {
                Material::LightmappedGeneric { basetexture } => r@.len() == 1 && *r@[0]
                    == basetexture,
                Material::UnlitGeneric { basetexture } => r@.len() == 1 && *r@[0] == basetexture,
                Material::WorldVertexTransition { basetexture, basetexture2 } => r@.len() == 2
                    && *r@[0] == basetexture && *r@[1] == basetexture2,
                Material::MissingMaterial => r@.len() == 0,
            },
    {
        match self {
            Material::LightmappedGeneric { basetexture } => {
                let mut v: Vec<&String> = Vec::new();
                v.push(basetexture);
                v
            },
            Material::UnlitGeneric { basetexture } => {
                let mut v: Vec<&String> = Vec::new();
                v.push(basetexture);
                v
            },
            Material::WorldVertexTransition { basetexture, basetexture2 } => {
                let mut v: Vec<&String> = Vec::new();
                v.push(basetexture);
                v.push(basetexture2);
                v
            },
            Material::MissingMaterial => Vec::new(),
        }
    }

    /// Whether the material is an editor tool material, drawn only when tool
    /// textures are shown: its lowercased texture names live under `tools/`.
    pub fn is_tool(&self) -> (r: bool)
        ensures
            match self {
                Material::LightmappedGeneric { basetexture } => r == spec_starts_with(
                    lower_of(basetexture@),
                    "tools/"@,
                ),
                Material::UnlitGeneric { basetexture } => r == spec_starts_with(
                    lower_of(basetexture@),
                    "tools/"@,
                ),
                Material::WorldVertexTransition { basetexture, basetexture2 } => r == (
                spec_starts_with(lower_of(basetexture@), "tools/"@) && spec_starts_with(
                    lower_of(basetexture2@),
                    "tools/"@,
                )),
                Material::MissingMaterial => r == false,
            },
    {
        match self {
            Material::LightmappedGeneric { basetexture } => {
                let lb = lowercase(basetexture.as_str());
                str_starts_with(lb.as_str(), "tools/")
            },
            Material::UnlitGeneric { basetexture } => {
                let lb = lowercase(basetexture.as_str());
                str_starts_with(lb.as_str(), "tools/")
            },
            Material::WorldVertexTransition { basetexture, basetexture2 } => {
                let lb = lowercase(basetexture.as_str());
                let lb2 = lowercase(basetexture2.as_str());
                let a = str_starts_with(lb.as_str(), "tools/");
                let b = str_starts_with(lb2.as_str(), "tools/");
                a && b
            },
            Material::MissingMaterial => false,
        }
    }
}

/// The lowercased string value of a property, as executed.
fn texture_lookup(props: &KeyValues, key: &str) -> (r: Option<String>)
    ensures
        match r {
            Some(t) => texture_of(*props, key@) matches Some(tv) && t@ == lower_of(tv),
            None => texture_of(*props, key@) is None,
        },
{
    match props.get(key) {
        Some(child) => match child.get_value() {
            Some(v) => Some(lowercase(v.as_str())),
            None => None,
        },
        None => None,
    }
}

} // verus!