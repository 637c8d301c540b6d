use rust_3d::material::{collect_texture_requests, mesh_textures, MaterialTextures, MeshTextures};
use rust_3d::texture::{Texture, TextureTable};

fn ids(bs: &[(u32, Texture)]) -> Vec<(u32, u32)> {
    bs.iter().map(|(u, t)| (*u, t.id())).collect()
}

#[test]
fn texture_keeps_its_id() {
    assert_eq!(Texture::from_id(7).id(), 7);
}

#[test]
fn table_get_after_insert() {
    let mut t = TextureTable::new();
    assert!(t.get(&"a".to_string()).is_none());
    t.insert("a".to_string(), Texture::from_id(1));
    t.insert("b".to_string(), Texture::from_id(2));
    assert_eq!(t.get(&"a".to_string()).map(|x| x.id()), Some(1));
    assert_eq!(t.get(&"b".to_string()).map(|x| x.id()), Some(2));
    assert!(t.get(&"c".to_string()).is_none());
}

#[test]
fn table_insert_replaces() {
    let mut t = TextureTable::new();
    t.insert("a".to_string(), Texture::from_id(1));
    t.insert("a".to_string(), Texture::from_id(5));
    assert_eq!(t.get(&"a".to_string()).map(|x| x.id()), Some(5));
}

#[test]
fn bindings_use_units_zero_one_two() {
    let mut t = TextureTable::new();
    t.insert("d".to_string(), Texture::from_id(10));
    t.insert("s".to_string(), Texture::from_id(11));
    t.insert("n".to_string(), Texture::from_id(12));
    let mesh = MeshTextures { albedo: Some("d".to_string()), specular: Some("s".to_string()), normal: Some("n".to_string()) };
    assert_eq!(ids(&t.texture_bindings(&mesh)), vec![(0, 10), (1, 11), (2, 12)]);
}

#[test]
fn bindings_skip_missing_textures() {
    let mut t = TextureTable::new();
    t.insert("n".to_string(), Texture::from_id(12));
    let mesh = MeshTextures { albedo: Some("d".to_string()), specular: None, normal: Some("n".to_string()) };
    assert_eq!(ids(&t.texture_bindings(&mesh)), vec![(2, 12)]);
    let none = MeshTextures { albedo: None, specular: None, normal: None };
    assert!(t.texture_bindings(&none).is_empty());
}

#[test]
fn loaded_textures_are_found_by_key() {
    let ms = vec![MaterialTextures {
        diffuse_texture: "d.png".to_string(),
        specular_texture: "s.png".to_string(),
        normal_texture: String::new(),
        unknown_param: vec![("map_Bump".to_string(), "b.png".to_string())],
    }];
    let reqs = collect_texture_requests("m/x.obj", &ms);
    let loaded: Vec<Texture> = (0..reqs.len() as u32).map(|i| Texture::from_id(100 + i)).collect();
    let table = TextureTable::from_loaded(&reqs, loaded);
    let mesh = mesh_textures(&ms, Some(0));
    assert_eq!(ids(&table.texture_bindings(&mesh)), vec![(0, 100), (1, 101), (2, 102)]);
}
