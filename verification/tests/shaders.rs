use rust_3d::shader::{EntityShader, Framebuffer, Shader, ShaderSource, SkyboxShader};

fn names(s: &[rust_3d::shader::Sampler]) -> Vec<(String, i32)> {
    s.iter().map(|x| (x.name.clone(), x.unit)).collect()
}

#[test]
fn entity_shader_sources() {
    let s = EntityShader::new();
    assert_eq!(s.source.vertex_path, "res/vshader.vert");
    assert_eq!(s.source.fragment_path, "res/fshader.frag");
    assert_eq!(
        names(&s.samplers()),
        vec![("diffuseMap".to_string(), 0), ("specularMap".to_string(), 1), ("normalMap".to_string(), 2)]
    );
}

#[test]
fn skybox_shader_sources() {
    let s = SkyboxShader::new();
    assert_eq!(s.source.vertex_path, "res/skybox.vert");
    assert_eq!(s.source.fragment_path, "res/skybox.frag");
    assert_eq!(names(&s.samplers()), vec![("skybox".to_string(), 0)]);
}

#[test]
fn framebuffer_shader_and_parts() {
    let src = Framebuffer::shader_source();
    assert_eq!(src.vertex_path, "res/framebuffer.vert");
    assert_eq!(src.fragment_path, "res/framebuffer.frag");
    assert_eq!(names(&Framebuffer::samplers()), vec![("screenTexture".to_string(), 0)]);
    let f = Framebuffer::from_parts(Shader { program: 9 }, 1, 2, 3, 4, 5);
    assert_eq!((f.program(), f.fbo(), f.rbo(), f.quad_vao(), f.quad_vbo(), f.texture()), (9, 1, 2, 3, 4, 5));
}

#[test]
fn shader_source_paths() {
    let s = ShaderSource::new("a.vert", "b.frag");
    assert_eq!(s.vertex_path, "a.vert");
    assert_eq!(s.fragment_path, "b.frag");
}
