//! Texture requests derived from the materials of a Wavefront model.

use vstd::prelude::*;
use itertools::Itertools;

verus! {

/// The path that results from replacing the file-name component of `path`
/// by `file_name`, following the path rules of the target platform (the
/// result of `std::path::PathBuf::set_file_name`).
pub uninterp spec fn path_with_file_name(path: Seq<char>, file_name: Seq<char>) -> Seq<char>;

/// Replaces the last component of `path` by `file_name`, through
/// `std::path::PathBuf::set_file_name`. The contract only ties the result to
/// its two arguments by name: the platform's path rules are not restated.
#[verifier::external_body]
fn path_set_file_name(path: &str, file_name: &str) -> (res: String)
    ensures
        res@ == path_with_file_name(path@, file_name@),
{
    let mut path_buf = std::path::PathBuf::from(path);
    path_buf.set_file_name(file_name);
    String::from(path_buf.to_str().unwrap())
}

/// The location of a texture file named in a material: a sibling of the
/// model file at `path`.
pub fn get_texture_path(path: &str, file_name: &str) -> (res: String)
    ensures
        res@ == path_with_file_name(path@, file_name@),
{
    path_set_file_name(path, file_name)
}


/// A texture file to load: `key` is the name the material gives it, `path`
/// where the file lies.
#[derive(Clone, Debug, PartialEq, Eq)]
pub struct TextureRequest {
    pub key: String,
    pub path: String,
}

impl View for TextureRequest {
    type V = (Seq<char>, Seq<char>);

    open spec fn view(&self) -> (Seq<char>, Seq<char>) {
        (self.key@, self.path@)
    }
}

/// The texture-related fields of a material of a Wavefront model: the three
/// texture names (empty where the material names none) and the parameters
/// that the material file holds beyond the standard ones, as key/value pairs.
pub struct MaterialTextures {
    pub diffuse_texture: String,
    pub specular_texture: String,
    pub normal_texture: String,
    pub unknown_param: Vec<(String, String)>,
}

/// The textures a mesh binds when it is drawn: albedo, specular and normal
/// map, each by the name its material gives it.
pub struct MeshTextures {
    pub albedo: Option<String>,
    pub specular: Option<String>,
    pub normal: Option<String>,
}

/// The views of a sequence of requests.
pub open spec fn requests_view(reqs: Seq<TextureRequest>) -> Seq<(Seq<char>, Seq<char>)> {
    reqs.map_values(|r: TextureRequest| r@)
}

/// The request for the texture called `name` of the model at `path`.
pub open spec fn request_for(path: Seq<char>, name: Seq<char>) -> (Seq<char>, Seq<char>) {
    (name, path_with_file_name(path, name))
}

/// Makes the request for the texture `texture_name` of the model at `path`.
pub fn create_texture_request(path: &str, texture_name: String) -> (req: TextureRequest)
    ensures
        req@ == request_for(path@, texture_name@),
{
    let key = texture_name.clone();
    let file_name = texture_name.as_str();
    let path = get_texture_path(path, file_name);
    TextureRequest { key, path }
}

/// The parameter name under which a material file gives a bump map.
pub open spec fn bump_key() -> Seq<char> {
    "map_Bump"@
}

/// The value of the first parameter called `key`, or the empty name where
/// there is none.
pub open spec fn first_param(params: Seq<(String, String)>, key: Seq<char>) -> Seq<char>
    decreases params.len(),
{
    if params.len() == 0 {
        Seq::empty()
    } else if params[0].0@ == key {
        params[0].1@
    } else {
        first_param(params.drop_first(), key)
    }
}

/// The bump map that a material names among its extra parameters, or the
/// empty name.
pub open spec fn bump_map(m: MaterialTextures) -> Seq<char> {
    first_param(m.unknown_param@, bump_key())
}

/// The requests for the textures of one material: the diffuse texture, the
/// specular texture, and then as normal map the bump map where the material
/// names one, else its normal texture; each only where its name is not empty.
pub open spec fn material_requests(path: Seq<char>, m: MaterialTextures) -> Seq<(Seq<char>, Seq<char>)> {
    let diffuse = if m.diffuse_texture@.len() > 0 {
        seq![request_for(path, m.diffuse_texture@)]
    } else {
        Seq::empty()
    };
    let specular = if m.specular_texture@.len() > 0 {
        seq![request_for(path, m.specular_texture@)]
    } else {
        Seq::empty()
    };
    let normal = if bump_map(m).len() > 0 {
        seq![request_for(path, bump_map(m))]
    } else if m.normal_texture@.len() > 0 {
        seq![request_for(path, m.normal_texture@)]
    } else {
        Seq::empty()
    };
    diffuse + specular + normal
}

/// The value looked up by name is that of the first parameter with the name,
/// wherever it stands, and empty where no parameter has the name.
pub proof fn lemma_first_param(params: Seq<(String, String)>, key: Seq<char>)
    ensures
        forall|i: int|
            0 <= i < params.len() && #[trigger] params[i].0@ == key && (forall|j: int|
                0 <= j < i ==> params[j].0@ != key) ==> first_param(params, key) == params[i].1@,
        (forall|i: int| 0 <= i < params.len() ==> #[trigger] params[i].0@ != key) ==> first_param(
            params,
            key,
        ).len() == 0,
    decreases params.len(),
{
    if params.len() > 0 {
        let rest = params.drop_first();
        lemma_first_param(rest, key);
        assert forall|i: int|
            0 <= i < params.len() && #[trigger] params[i].0@ == key && (forall|j: int|
                0 <= j < i ==> params[j].0@ != key) implies first_param(params, key) == params[i].1@ by {
            if i > 0 {
                assert(params[0].0@ != key);
                assert(rest[i - 1] == params[i]);
                assert forall|j: int| 0 <= j < i - 1 implies rest[j].0@ != key by {
                    assert(rest[j] == params[j + 1]);
                }
            }
        }
        if forall|i: int| 0 <= i < params.len() ==> #[trigger] params[i].0@ != key {
            assert(params[0].0@ != key);
            assert forall|i: int| 0 <= i < rest.len() implies #[trigger] rest[i].0@ != key by {
                assert(rest[i] == params[i + 1]);
            }
        }
    }
}

/// The value of the first of `params` whose name is `map_Bump`, or an empty
/// string.
pub fn find_bump_map(params: &Vec<(String, String)>) -> (res: String)
    ensures
        res@ == first_param(params@, bump_key()),
        forall|i: int|
            0 <= i < params@.len() && #[trigger] params@[i].0@ == "map_Bump"@ && (forall|j: int|
                0 <= j < i ==> params@[j].0@ != "map_Bump"@) ==> res@ == params@[i].1@,
        (forall|i: int| 0 <= i < params@.len() ==> #[trigger] params@[i].0@ != "map_Bump"@) ==> res@.len() == 0,
{
    proof {
        lemma_first_param(params@, bump_key());
    }
    let bump = "map_Bump".to_owned();
    let mut i: usize = 0;
    assert(params@.skip(0) =~= params@);
    while i < params.len()
        invariant
            i <= params.len(),
            bump@ == bump_key(),
            first_param(params@, bump_key()) == first_param(params@.skip(i as int), bump_key()),
        decreases params.len() - i,
    {
        assert(params@.skip(i as int)[0] == params@[i as int]);
        if params[i].0 == bump {
            proof {
                lemma_first_param(params@, bump_key());
            }
            return params[i].1.clone();
        }
        assert(params@.skip(i as int).drop_first() =~= params@.skip(i + 1));
        i = i + 1;
    }
    assert(params@.skip(i as int).len() == 0);
    String::new()
}

/// The requests for the textures of `material`, a material of the model at
/// `path`.
pub fn material_texture_requests(path: &str, material: &MaterialTextures) -> (reqs: Vec<TextureRequest>)
    ensures
        requests_view(reqs@) == material_requests(path@, *material),
{
    let mut acc: Vec<TextureRequest> = Vec::new();
    if !material.diffuse_texture.as_str().is_empty() {
        acc.push(create_texture_request(path, material.diffuse_texture.clone()));
    }
    if !material.specular_texture.as_str().is_empty() {
        acc.push(create_texture_request(path, material.specular_texture.clone()));
    }
    let normal_path = find_bump_map(&material.unknown_param);
    if !normal_path.as_str().is_empty() {
        acc.push(create_texture_request(path, normal_path));
    } else if !material.normal_texture.as_str().is_empty() {
        acc.push(create_texture_request(path, material.normal_texture.clone()));
    }
    assert(requests_view(acc@) =~= material_requests(path@, *material));
    acc
}


/// Whether some request in `reqs` has the key `key`.
pub open spec fn has_key(reqs: Seq<(Seq<char>, Seq<char>)>, key: Seq<char>) -> bool {
    exists|j: int| 0 <= j < reqs.len() && #[trigger] reqs[j].0 == key
}

/// The requests of `reqs` whose key no earlier request has, in their order.
pub open spec fn first_by_key(reqs: Seq<(Seq<char>, Seq<char>)>) -> Seq<(Seq<char>, Seq<char>)>
    decreases reqs.len(),
{
    if reqs.len() == 0 {
        Seq::empty()
    } else if has_key(reqs.drop_last(), reqs.last().0) {
        first_by_key(reqs.drop_last())
    } else {
        first_by_key(reqs.drop_last()).push(reqs.last())
    }
}

/// The requests of all materials, material by material, before duplicates
/// are dropped.
pub open spec fn all_material_requests(path: Seq<char>, ms: Seq<MaterialTextures>) -> Seq<(Seq<char>, Seq<char>)>
    decreases ms.len(),
{
    if ms.len() == 0 {
        Seq::empty()
    } else {
        all_material_requests(path, ms.drop_last()) + material_requests(path, ms.last())
    }
}

/// Drops every request whose key an earlier request has, through
/// `itertools::Itertools::unique_by` keyed by the request's key. As its
/// documentation states, the adaptor is stable and keeps the first item of
/// each set of items with equal keys.
#[verifier::external_body]
fn unique_by_key(reqs: Vec<TextureRequest>) -> (unique: Vec<TextureRequest>)
    ensures
        requests_view(unique@) == first_by_key(requests_view(reqs@)),
{
    reqs.into_iter().unique_by(|r| r.key.clone()).collect()
}

/// The textures that the materials of the model at `path` ask for, each key
/// once, in the order in which the materials first name them.
pub fn collect_texture_requests(path: &str, materials: &Vec<MaterialTextures>) -> (reqs: Vec<TextureRequest>)
    ensures
        requests_view(reqs@) == first_by_key(all_material_requests(path@, materials@)),
        forall|i: int, j: int|
            0 <= i < j < reqs@.len() ==> #[trigger] reqs@[i].key@ != #[trigger] reqs@[j].key@,
        forall|k: Seq<char>|
            has_key(all_material_requests(path@, materials@), k) <==> has_key(requests_view(reqs@), k),
{
    let mut acc: Vec<TextureRequest> = Vec::new();
    let mut i: usize = 0;
    while i < materials.len()
        invariant
            i <= materials.len(),
            requests_view(acc@) == all_material_requests(path@, materials@.take(i as int)),
        decreases materials.len() - i,
    {
        let mut reqs = material_texture_requests(path, &materials[i]);
        acc.append(&mut reqs);
        assert(materials@.take(i + 1).drop_last() =~= materials@.take(i as int));
        assert(requests_view(acc@) =~= all_material_requests(path@, materials@.take(i + 1)));
        i = i + 1;
    }
    assert(materials@.take(i as int) =~= materials@);
    let unique = unique_by_key(acc);
    proof {
        let all = all_material_requests(path@, materials@);
        lemma_first_by_key(all);
        assert forall|a: int, b: int| 0 <= a < b < unique@.len() implies
            #[trigger] unique@[a].key@ != #[trigger] unique@[b].key@ by {
            assert(requests_view(unique@)[a].0 == unique@[a].key@);
            assert(requests_view(unique@)[b].0 == unique@[b].key@);
        }
    }
    unique
}

/// Keeping the first request of each key leaves no two requests with one
/// key, keeps every key, and keeps of each key the request that came first.
pub proof fn lemma_first_by_key(reqs: Seq<(Seq<char>, Seq<char>)>)
    ensures
        forall|i: int, j: int|
            0 <= i < j < first_by_key(reqs).len() ==> #[trigger] first_by_key(reqs)[i].0
                != #[trigger] first_by_key(reqs)[j].0,
        forall|k: Seq<char>| has_key(reqs, k) <==> has_key(first_by_key(reqs), k),
        forall|i: int|
            0 <= i < first_by_key(reqs).len() ==> exists|j: int|
                0 <= j < reqs.len() && reqs[j] == #[trigger] first_by_key(reqs)[i] && !has_key(
                    reqs.take(j),
                    reqs[j].0,
                ),
    decreases reqs.len(),
{
    if reqs.len() > 0 {
        let init = reqs.drop_last();
        let last = reqs.last();
        lemma_first_by_key(init);
        let prev = first_by_key(init);
        assert forall|k: Seq<char>| has_key(reqs, k) <==> has_key(init, k) || k == last.0 by {
            if has_key(reqs, k) {
                let j = choose|j: int| 0 <= j < reqs.len() && #[trigger] reqs[j].0 == k;
                if j < init.len() {
                    assert(init[j].0 == k);
                }
            }
            if has_key(init, k) {
                let j = choose|j: int| 0 <= j < init.len() && #[trigger] init[j].0 == k;
                assert(reqs[j].0 == k);
            }
            if k == last.0 {
                assert(reqs[reqs.len() - 1].0 == k);
            }
        }
        assert forall|j: int| 0 <= j < init.len() implies #[trigger] reqs.take(j) == init.take(j) by {
            assert(reqs.take(j) =~= init.take(j));
        }
        if has_key(init, last.0) {
            assert forall|i: int| 0 <= i < prev.len() implies exists|j: int|
                0 <= j < reqs.len() && reqs[j] == #[trigger] prev[i] && !has_key(reqs.take(j), reqs[j].0) by {
                let j = choose|j: int|
                    0 <= j < init.len() && init[j] == #[trigger] prev[i] && !has_key(init.take(j), init[j].0);
                assert(reqs.take(j) == init.take(j));
                assert(reqs[j] == init[j]);
            }
        } else {
            let res = prev.push(last);
            assert(first_by_key(reqs) == res);
            assert forall|k: Seq<char>| has_key(res, k) <==> has_key(prev, k) || k == last.0 by {
                if has_key(res, k) {
                    let j = choose|j: int| 0 <= j < res.len() && #[trigger] res[j].0 == k;
                    if j < prev.len() {
                        assert(prev[j].0 == k);
                    }
                }
                if has_key(prev, k) {
                    let j = choose|j: int| 0 <= j < prev.len() && #[trigger] prev[j].0 == k;
                    assert(res[j].0 == k);
                }
                if k == last.0 {
                    assert(res[res.len() - 1].0 == k);
                }
            }
            assert forall|i: int, j: int| 0 <= i < j < res.len() implies #[trigger] res[i].0
                != #[trigger] res[j].0 by {
                if j == res.len() - 1 {
                    if res[i].0 == res[j].0 {
                        assert(prev[i].0 == last.0);
                        assert(has_key(prev, last.0));
                    }
                } else {
                    assert(res[i] == prev[i]);
                    assert(res[j] == prev[j]);
                }
            }
            assert forall|i: int| 0 <= i < res.len() implies exists|j: int|
                0 <= j < reqs.len() && reqs[j] == #[trigger] res[i] && !has_key(reqs.take(j), reqs[j].0) by {
                if i == res.len() - 1 {
                    let j = reqs.len() - 1;
                    assert(reqs.take(j) =~= init);
                    assert(reqs[j] == res[i]);
                } else {
                    assert(res[i] == prev[i]);
                    let j = choose|j: int|
                        0 <= j < init.len() && init[j] == #[trigger] prev[i] && !has_key(init.take(j), init[j].0);
                    assert(reqs.take(j) == init.take(j));
                    assert(reqs[j] == init[j]);
                }
            }
        }
    }
}


/// A texture name, or none where the name is empty.
pub open spec fn name_if_any(name: Seq<char>) -> Option<Seq<char>> {
    if name.len() > 0 {
        Some(name)
    } else {
        None
    }
}

/// The view of an optional name.
pub open spec fn opt_name(o: Option<String>) -> Option<Seq<char>> {
    match o {
        Some(s) => Some(s@),
        None => None,
    }
}

impl View for MeshTextures {
    type V = (Option<Seq<char>>, Option<Seq<char>>, Option<Seq<char>>);

    open spec fn view(&self) -> (Option<Seq<char>>, Option<Seq<char>>, Option<Seq<char>>) {
        (opt_name(self.albedo), opt_name(self.specular), opt_name(self.normal))
    }
}

/// The textures that a mesh with material `m` binds: its diffuse texture as
/// albedo, its specular texture, and as normal map its normal texture where
/// it names one, else its bump map.
pub open spec fn mesh_textures_of(m: MaterialTextures) -> (Option<Seq<char>>, Option<Seq<char>>, Option<Seq<char>>) {
    (
        name_if_any(m.diffuse_texture@),
        name_if_any(m.specular_texture@),
        if m.normal_texture@.len() > 0 {
            Some(m.normal_texture@)
        } else {
            name_if_any(bump_map(m))
        },
    )
}

/// A mesh binds its material's diffuse texture as albedo and its specular
/// texture, each where named; as normal map the normal texture where the
/// material names one, else the bump map where it names one, else none.
pub proof fn lemma_mesh_textures_of(m: MaterialTextures)
    ensures
        m.diffuse_texture@.len() > 0 ==> mesh_textures_of(m).0 == Some(m.diffuse_texture@),
        m.diffuse_texture@.len() == 0 ==> mesh_textures_of(m).0 is None,
        m.specular_texture@.len() > 0 ==> mesh_textures_of(m).1 == Some(m.specular_texture@),
        m.specular_texture@.len() == 0 ==> mesh_textures_of(m).1 is None,
        m.normal_texture@.len() > 0 ==> mesh_textures_of(m).2 == Some(m.normal_texture@),
        m.normal_texture@.len() == 0 && bump_map(m).len() > 0 ==> mesh_textures_of(m).2 == Some(bump_map(m)),
        m.normal_texture@.len() == 0 && bump_map(m).len() == 0 ==> mesh_textures_of(m).2 is None,
{
}

/// The textures of a mesh whose material is `materials[material_id]`.
pub fn mesh_textures(materials: &Vec<MaterialTextures>, material_id: Option<usize>) -> (t: MeshTextures)
    requires
        material_id is Some,
        material_id.unwrap() < materials@.len(),
    ensures
        t@ == mesh_textures_of(materials@[material_id.unwrap() as int]),
        ({
            let m = materials@[material_id.unwrap() as int];
            &&& m.diffuse_texture@.len() > 0 ==> t@.0 == Some(m.diffuse_texture@)
            &&& m.diffuse_texture@.len() == 0 ==> t@.0 is None
            &&& m.specular_texture@.len() > 0 ==> t@.1 == Some(m.specular_texture@)
            &&& m.specular_texture@.len() == 0 ==> t@.1 is None
            &&& m.normal_texture@.len() > 0 ==> t@.2 == Some(m.normal_texture@)
            &&& m.normal_texture@.len() == 0 && bump_map(m).len() > 0 ==> t@.2 == Some(bump_map(m))
            &&& m.normal_texture@.len() == 0 && bump_map(m).len() == 0 ==> t@.2 is None
        }),
{
    proof {
        lemma_mesh_textures_of(materials@[material_id.unwrap() as int]);
    }
    let mat_id: usize = material_id.unwrap();
    let material = &materials[mat_id];
    let mut diffuse = None;
    if !material.diffuse_texture.as_str().is_empty() {
        diffuse = Some(material.diffuse_texture.clone());
    }
    let mut specular = None;
    if !material.specular_texture.as_str().is_empty() {
        specular = Some(material.specular_texture.clone());
    }
    let mut normal = None;
    let normal_path = find_bump_map(&material.unknown_param);
    if !material.normal_texture.as_str().is_empty() {
        normal = Some(material.normal_texture.clone());
    } else if !normal_path.as_str().is_empty() {
        normal = Some(normal_path);
    }
    MeshTextures { albedo: diffuse, specular, normal }
}

/// Every key that one material asks for is among the requests of all
/// materials.
pub proof fn lemma_material_requests_in_all(path: Seq<char>, ms: Seq<MaterialTextures>, i: int, k: Seq<char>)
    requires
        0 <= i < ms.len(),
        has_key(material_requests(path, ms[i]), k),
    ensures
        has_key(all_material_requests(path, ms), k),
    decreases ms.len(),
{
    let init = ms.drop_last();
    let before = all_material_requests(path, init);
    let all = all_material_requests(path, ms);
    if i == ms.len() - 1 {
        let mine = material_requests(path, ms[i]);
        let j = choose|j: int| 0 <= j < mine.len() && #[trigger] mine[j].0 == k;
        assert(all == before + mine);
        assert(all[before.len() + j] == mine[j]);
    } else {
        assert(ms[i] == init[i]);
        lemma_material_requests_in_all(path, init, i, k);
        let j = choose|j: int| 0 <= j < before.len() && #[trigger] before[j].0 == k;
        assert(all[j] == before[j]);
    }
}

/// Every texture that a mesh binds is requested by the materials, provided
/// that its material does not name both a bump map and a normal texture:
/// for the normal map a mesh prefers the normal texture while the requests
/// prefer the bump map, so with both named the mesh's normal map is never
/// loaded.
pub proof fn lemma_mesh_textures_are_requested(path: Seq<char>, ms: Seq<MaterialTextures>, i: int)
    requires
        0 <= i < ms.len(),
        !(bump_map(ms[i]).len() > 0 && ms[i].normal_texture@.len() > 0),
    ensures
        mesh_textures_of(ms[i]).0 matches Some(n) ==> has_key(first_by_key(all_material_requests(path, ms)), n),
        mesh_textures_of(ms[i]).1 matches Some(n) ==> has_key(first_by_key(all_material_requests(path, ms)), n),
        mesh_textures_of(ms[i]).2 matches Some(n) ==> has_key(first_by_key(all_material_requests(path, ms)), n),
{
    let m = ms[i];
    let mine = material_requests(path, m);
    let d: Seq<(Seq<char>, Seq<char>)> = if m.diffuse_texture@.len() > 0 { seq![request_for(path, m.diffuse_texture@)] } else { Seq::empty() };
    let s: Seq<(Seq<char>, Seq<char>)> = if m.specular_texture@.len() > 0 { seq![request_for(path, m.specular_texture@)] } else { Seq::empty() };
    lemma_first_by_key(all_material_requests(path, ms));
    if m.diffuse_texture@.len() > 0 {
        assert(mine[0].0 == m.diffuse_texture@);
        lemma_material_requests_in_all(path, ms, i, m.diffuse_texture@);
    }
    if m.specular_texture@.len() > 0 {
        assert(mine[d.len() as int].0 == m.specular_texture@);
        lemma_material_requests_in_all(path, ms, i, m.specular_texture@);
    }
    if let Some(n) = mesh_textures_of(m).2 {
        assert(mine[(d.len() + s.len()) as int].0 == n);
        lemma_material_requests_in_all(path, ms, i, n);
    }
}

} // verus!
