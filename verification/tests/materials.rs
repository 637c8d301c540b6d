use rust_3d::material::{
    collect_texture_requests, create_texture_request, find_bump_map, get_texture_path, material_texture_requests,
    mesh_textures, MaterialTextures, TextureRequest,
};

fn material(diffuse: &str, specular: &str, normal: &str, params: &[(&str, &str)]) -> MaterialTextures {
    MaterialTextures {
        diffuse_texture: diffuse.to_string(),
        specular_texture: specular.to_string(),
        normal_texture: normal.to_string(),
        unknown_param: params.iter().map(|(k, v)| (k.to_string(), v.to_string())).collect(),
    }
}

fn req(key: &str, path: &str) -> TextureRequest {
    TextureRequest { key: key.to_string(), path: path.to_string() }
}

#[test]
fn texture_path_replaces_the_model_file_name() {
    assert_eq!(get_texture_path("res/models/ves/Ves.obj", "ves_diffuse.png"), "res/models/ves/ves_diffuse.png");
    assert_eq!(get_texture_path("res/models/plane.obj", "floor.png"), "res/models/floor.png");
}

#[test]
fn texture_path_of_a_bare_file_name() {
    assert_eq!(get_texture_path("cube.obj", "box.png"), "box.png");
}

#[test]
fn texture_request_keeps_the_name_as_key() {
    let r = create_texture_request("res/models/ves/Ves.obj", "skin.png".to_string());
    assert_eq!(r, req("skin.png", "res/models/ves/skin.png"));
}

#[test]
fn bump_map_is_the_first_map_bump_parameter() {
    let m = material("", "", "", &[("Ka_map", "a.png"), ("map_Bump", "bump.png"), ("map_Bump", "other.png")]);
    assert_eq!(find_bump_map(&m.unknown_param), "bump.png");
}

#[test]
fn bump_map_missing_is_empty() {
    let m = material("", "", "", &[("bump", "b.png")]);
    assert_eq!(find_bump_map(&m.unknown_param), "");
    assert_eq!(find_bump_map(&Vec::new()), "");
}

#[test]
fn material_requests_in_order() {
    let m = material("d.png", "s.png", "n.png", &[]);
    let reqs = material_texture_requests("models/a.obj", &m);
    assert_eq!(reqs, vec![req("d.png", "models/d.png"), req("s.png", "models/s.png"), req("n.png", "models/n.png")]);
}

#[test]
fn material_requests_prefer_the_bump_map() {
    let m = material("", "s.png", "n.png", &[("map_Bump", "b.png")]);
    let reqs = material_texture_requests("models/a.obj", &m);
    assert_eq!(reqs, vec![req("s.png", "models/s.png"), req("b.png", "models/b.png")]);
}

#[test]
fn material_without_textures_requests_nothing() {
    let m = material("", "", "", &[]);
    assert!(material_texture_requests("models/a.obj", &m).is_empty());
}

#[test]
fn collected_requests_drop_repeated_keys() {
    let ms = vec![
        material("d.png", "s.png", "", &[]),
        material("d.png", "", "n.png", &[]),
        material("e.png", "s.png", "", &[("map_Bump", "n.png")]),
    ];
    let reqs = collect_texture_requests("m/x.obj", &ms);
    assert_eq!(
        reqs,
        vec![req("d.png", "m/d.png"), req("s.png", "m/s.png"), req("n.png", "m/n.png"), req("e.png", "m/e.png")]
    );
}

#[test]
fn collected_requests_of_no_materials() {
    assert!(collect_texture_requests("m/x.obj", &Vec::new()).is_empty());
}

#[test]
fn mesh_textures_prefer_the_normal_texture() {
    let ms = vec![material("d.png", "", "n.png", &[("map_Bump", "b.png")]), material("", "s.png", "", &[("map_Bump", "b.png")])];
    let t = mesh_textures(&ms, Some(0));
    assert_eq!(t.albedo, Some("d.png".to_string()));
    assert_eq!(t.specular, None);
    assert_eq!(t.normal, Some("n.png".to_string()));
    let t = mesh_textures(&ms, Some(1));
    assert_eq!(t.albedo, None);
    assert_eq!(t.specular, Some("s.png".to_string()));
    assert_eq!(t.normal, Some("b.png".to_string()));
}

#[test]
fn mesh_normal_map_is_not_requested_when_both_are_named() {
    // A material that names both a bump map and a normal texture: the
    // requests load the bump map, the mesh binds the normal texture.
    let ms = vec![material("", "", "n.png", &[("map_Bump", "b.png")])];
    let reqs = collect_texture_requests("m/x.obj", &ms);
    let t = mesh_textures(&ms, Some(0));
    assert_eq!(reqs, vec![req("b.png", "m/b.png")]);
    assert_eq!(t.normal, Some("n.png".to_string()));
    assert!(reqs.iter().all(|r| r.key != "n.png"));
}
