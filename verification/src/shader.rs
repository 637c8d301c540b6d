//! Shader programs: the source files of the built-in shaders, the texture
//! units their samplers read, and the objects of the graphics context that
//! hold a compiled program and the off-screen framebuffer.

use vstd::prelude::*;

verus! {

/// A linked shader program of the graphics context, known by its id.
#[derive(Debug)]
pub struct Shader {
    pub program: u32,
}

/// The vertex and fragment shader files that a program is built from.
pub struct ShaderSource {
    pub vertex_path: String,
    pub fragment_path: String,
}

impl ShaderSource {
    /// The sources `vertex_path` and `fragment_path`.
    pub fn new(vertex_path: &str, fragment_path: &str) -> (s: ShaderSource)
        ensures
            s.vertex_path@ == vertex_path@,
            s.fragment_path@ == fragment_path@,
    {
        ShaderSource { vertex_path: vertex_path.to_owned(), fragment_path: fragment_path.to_owned() }
    }
}

/// A sampler uniform: its name in the shader and the texture unit it reads.
pub struct Sampler {
    pub name: String,
    pub unit: i32,
}

/// The view of a sequence of samplers.
pub open spec fn samplers_view(s: Seq<Sampler>) -> Seq<(Seq<char>, i32)> {
    s.map_values(|x: Sampler| (x.name@, x.unit))
}

fn sampler(name: &str, unit: i32) -> (s: Sampler)
    ensures
        s.name@ == name@,
        s.unit == unit,
{
    Sampler { name: name.to_owned(), unit }
}

/// The shader that lit, textured entities are drawn with.
pub struct EntityShader {
    pub source: ShaderSource,
}

impl EntityShader {
    /// The entity shader, built from `res/vshader.vert` and
    /// `res/fshader.frag`.
    pub fn new() -> (s: EntityShader)
        ensures
            s.source.vertex_path@ == "res/vshader.vert"@,
            s.source.fragment_path@ == "res/fshader.frag"@,
    {
        EntityShader { source: ShaderSource::new("res/vshader.vert", "res/fshader.frag") }
    }

    /// The entity shader's texture samplers: the albedo, specular and normal
    /// maps, on the texture units to which a mesh binds them
    /// (see `TextureTable::texture_bindings`).
    pub fn samplers(&self) -> (s: Vec<Sampler>)
        ensures
            samplers_view(s@) == seq![("diffuseMap"@, 0i32), ("specularMap"@, 1i32), ("normalMap"@, 2i32)],
    {
        let s = vec![sampler("diffuseMap", 0), sampler("specularMap", 1), sampler("normalMap", 2)];
        assert(samplers_view(s@) =~= seq![("diffuseMap"@, 0i32), ("specularMap"@, 1i32), ("normalMap"@, 2i32)]);
        s
    }
}

/// The shader that the sky box is drawn with.
pub struct SkyboxShader {
    pub source: ShaderSource,
}

impl SkyboxShader {
    /// The sky box shader, built from `res/skybox.vert` and
    /// `res/skybox.frag`.
    pub fn new() -> (s: SkyboxShader)
        ensures
            s.source.vertex_path@ == "res/skybox.vert"@,
            s.source.fragment_path@ == "res/skybox.frag"@,
    {
        SkyboxShader { source: ShaderSource::new("res/skybox.vert", "res/skybox.frag") }
    }

    /// The sky box shader's sampler: the cube map, on texture unit 0.
    pub fn samplers(&self) -> (s: Vec<Sampler>)
        ensures
            samplers_view(s@) == seq![("skybox"@, 0i32)],
    {
        let s = vec![sampler("skybox", 0)];
        assert(samplers_view(s@) =~= seq![("skybox"@, 0i32)]);
        s
    }
}

/// An off-screen framebuffer with a colour texture and a depth-stencil
/// render buffer, and the screen quad and shader that draw it to the window.
#[derive(Debug)]
pub struct Framebuffer {
    shader: Shader,
    fbo: u32,
    rbo: u32,
    fbo_quad_vao: u32,
    fbo_quad_vbo: u32,
    texture: u32,
}

impl Framebuffer {
    /// The shader that draws the framebuffer's texture to the window.
    pub fn shader_source() -> (s: ShaderSource)
        ensures
            s.vertex_path@ == "res/framebuffer.vert"@,
            s.fragment_path@ == "res/framebuffer.frag"@,
    {
        ShaderSource::new("res/framebuffer.vert", "res/framebuffer.frag")
    }

    /// The framebuffer shader's sampler: the colour texture, on unit 0.
    pub fn samplers() -> (s: Vec<Sampler>)
        ensures
            samplers_view(s@) == seq![("screenTexture"@, 0i32)],
    {
        let s = vec![sampler("screenTexture", 0)];
        assert(samplers_view(s@) =~= seq![("screenTexture"@, 0i32)]);
        s
    }

    /// The framebuffer made of the given objects of the graphics context.
    pub fn from_parts(
        shader: Shader,
        fbo: u32,
        rbo: u32,
        fbo_quad_vao: u32,
        fbo_quad_vbo: u32,
        texture: u32,
    ) -> (f: Framebuffer)
        ensures
            f@ == (shader.program, fbo, rbo, fbo_quad_vao, fbo_quad_vbo, texture),
    {
        Framebuffer { shader, fbo, rbo, fbo_quad_vao, fbo_quad_vbo, texture }
    }

    /// The program that draws the framebuffer to the window.
    pub fn program(&self) -> (id: u32)
        ensures
            id == self@.0,
    {
        self.shader.program
    }

    /// The framebuffer object.
    pub fn fbo(&self) -> (id: u32)
        ensures
            id == self@.1,
    {
        self.fbo
    }

    /// The depth-stencil render buffer.
    pub fn rbo(&self) -> (id: u32)
        ensures
            id == self@.2,
    {
        self.rbo
    }

    /// The vertex array of the screen quad.
    pub fn quad_vao(&self) -> (id: u32)
        ensures
            id == self@.3,
    {
        self.fbo_quad_vao
    }

    /// The vertex buffer of the screen quad.
    pub fn quad_vbo(&self) -> (id: u32)
        ensures
            id == self@.4,
    {
        self.fbo_quad_vbo
    }

    /// The colour texture.
    pub fn texture(&self) -> (id: u32)
        ensures
            id == self@.5,
    {
        self.texture
    }
}

impl View for Framebuffer {
    type V = (u32, u32, u32, u32, u32, u32);

    closed spec fn view(&self) -> (u32, u32, u32, u32, u32, u32) {
        (self.shader.program, self.fbo, self.rbo, self.fbo_quad_vao, self.fbo_quad_vbo, self.texture)
    }
}

} // verus!
