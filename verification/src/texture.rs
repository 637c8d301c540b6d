//! Loaded textures, the table in which a model keeps them by name, and the
//! texture units a mesh binds them to when it is drawn.

use vstd::prelude::*;
use crate::material::{
    MaterialTextures, MeshTextures, TextureRequest, all_material_requests, bump_map, first_by_key,
    has_key, lemma_first_by_key, lemma_mesh_textures_are_requested, mesh_textures_of, requests_view,
};

verus! {

/// A texture object of the graphics context, known by its id.
#[derive(Clone, Copy, Debug)]
pub struct Texture {
    texture_id: u32,
}

impl View for Texture {
    type V = u32;

    closed spec fn view(&self) -> u32 {
        self.texture_id
    }
}

impl Texture {
    /// The texture with the given id.
    pub fn from_id(texture_id: u32) -> (t: Texture)
        ensures
            t@ == texture_id,
    {
        Texture { texture_id }
    }

    /// The texture's id.
    pub fn id(&self) -> (id: u32)
        ensures
            id == self@,
    {
        self.texture_id
    }
}

/// The texture stored under `key` in `m`, if any.
pub open spec fn lookup(m: Map<Seq<char>, u32>, key: Seq<char>) -> Option<u32> {
    if m.dom().contains(key) {
        Some(m[key])
    } else {
        None
    }
}

/// A model's textures by name. No name occurs twice.
pub struct TextureTable {
    entries: Vec<(String, Texture)>,
}

/// Whether the index `i` of `entries` holds the key `key`.
pub open spec fn entry_has_key(entries: Seq<(String, Texture)>, i: int, key: Seq<char>) -> bool {
    0 <= i < entries.len() && entries[i].0@ == key
}

/// No two entries share a key.
pub open spec fn keys_distinct(entries: Seq<(String, Texture)>) -> bool {
    forall|i: int, j: int|
        0 <= i < entries.len() && 0 <= j < entries.len() && i != j ==> #[trigger] entries[i].0@
            != #[trigger] entries[j].0@
}

/// The map that the entries describe.
pub open spec fn entries_map(entries: Seq<(String, Texture)>) -> Map<Seq<char>, u32> {
    Map::new(
        |k: Seq<char>| exists|i: int| entry_has_key(entries, i, k),
        |k: Seq<char>| entries[choose|i: int| entry_has_key(entries, i, k)].1@,
    )
}

impl View for TextureTable {
    type V = Map<Seq<char>, u32>;

    closed spec fn view(&self) -> Map<Seq<char>, u32> {
        entries_map(self.entries@)
    }
}

/// In entries without a repeated key, the entry at `i` gives the map's value
/// for its key.
proof fn lemma_entries_map_at(entries: Seq<(String, Texture)>, i: int)
    requires
        keys_distinct(entries),
        0 <= i < entries.len(),
    ensures
        entries_map(entries).dom().contains(entries[i].0@),
        entries_map(entries)[entries[i].0@] == entries[i].1@,
{
    let k = entries[i].0@;
    assert(entry_has_key(entries, i, k));
    let c = choose|c: int| entry_has_key(entries, c, k);
    assert(c == i);
}

impl TextureTable {
    #[verifier::type_invariant]
    spec fn inv(&self) -> bool {
        keys_distinct(self.entries@)
    }

    /// An empty table.
    pub fn new() -> (t: TextureTable)
        ensures
            t@ == Map::<Seq<char>, u32>::empty(),
    {
        let t = TextureTable { entries: Vec::new() };
        assert(t@ =~= Map::<Seq<char>, u32>::empty());
        t
    }

    /// The index of the entry with the key `key`, if there is one.
    fn find(&self, key: &String) -> (res: Option<usize>)
        ensures
            match res {
                Some(i) => entry_has_key(self.entries@, i as int, key@),
                None => forall|i: int| !entry_has_key(self.entries@, i, key@),
            },
    {
        let mut i: usize = 0;
        while i < self.entries.len()
            invariant
                i <= self.entries@.len(),
                forall|j: int| 0 <= j < i ==> !entry_has_key(self.entries@, j, key@),
            decreases self.entries@.len() - i,
        {
            if self.entries[i].0 == *key {
                return Some(i);
            }
            i = i + 1;
        }
        None
    }

    /// The texture stored under `key`, if any.
    pub fn get(&self, key: &String) -> (res: Option<Texture>)
        ensures
            match res {
                Some(t) => lookup(self@, key@) == Some(t@),
                None => lookup(self@, key@) == None::<u32>,
            },
    {
        proof {
            use_type_invariant(self);
        }
        match self.find(key) {
            Some(i) => {
                proof {
                    lemma_entries_map_at(self.entries@, i as int);
                }
                Some(self.entries[i].1)
            },
            None => None,
        }
    }

    /// Stores `texture` under `key`, in place of any texture stored under it
    /// before.
    pub fn insert(&mut self, key: String, texture: Texture)
        ensures
            final(self)@ == old(self)@.insert(key@, texture@),
    {
        proof {
            use_type_invariant(&*self);
        }
        let ghost old_entries = self.entries@;
        let ghost k = key@;
        let found = self.find(&key);
        let mut entries: Vec<(String, Texture)> = Vec::new();
        std::mem::swap(&mut entries, &mut self.entries);
        match found {
            Some(i) => {
                entries.set(i, (key, texture));
            },
            None => {
                entries.push((key, texture));
            },
        }
        let ghost new_entries = entries@;
        proof {
            assert(keys_distinct(new_entries)) by {
                assert forall|a: int, b: int|
                    0 <= a < new_entries.len() && 0 <= b < new_entries.len() && a != b implies
                    #[trigger] new_entries[a].0@ != #[trigger] new_entries[b].0@ by {
                    if found is None {
                        if a == new_entries.len() - 1 {
                            assert(!entry_has_key(old_entries, b, k));
                        } else if b == new_entries.len() - 1 {
                            assert(!entry_has_key(old_entries, a, k));
                        } else {
                            assert(new_entries[a] == old_entries[a]);
                            assert(new_entries[b] == old_entries[b]);
                        }
                    } else {
                        let i = found.unwrap() as int;
                        if a != i && b != i {
                            assert(new_entries[a] == old_entries[a]);
                            assert(new_entries[b] == old_entries[b]);
                        } else if a == i {
                            assert(new_entries[b] == old_entries[b]);
                        } else {
                            assert(new_entries[a] == old_entries[a]);
                        }
                    }
                }
            }
            let expected = entries_map(old_entries).insert(k, texture@);
            assert forall|q: Seq<char>| #[trigger] expected.dom().contains(q) <==> entries_map(new_entries).dom().contains(q) by {
                if q == k {
                    if found is None {
                        assert(entry_has_key(new_entries, new_entries.len() - 1, q));
                    } else {
                        assert(entry_has_key(new_entries, found.unwrap() as int, q));
                    }
                } else {
                    if entries_map(old_entries).dom().contains(q) {
                        let j = choose|j: int| entry_has_key(old_entries, j, q);
                        assert(entry_has_key(new_entries, j, q));
                    }
                    if entries_map(new_entries).dom().contains(q) {
                        let j = choose|j: int| entry_has_key(new_entries, j, q);
                        assert(entry_has_key(old_entries, j, q));
                    }
                }
            }
            assert forall|q: Seq<char>| #[trigger] expected.dom().contains(q) implies expected[q] == entries_map(new_entries)[q] by {
                let idx: int = if found is None { new_entries.len() - 1 } else { found.unwrap() as int };
                assert(entry_has_key(new_entries, idx, k));
                if q == k {
                    lemma_entries_map_at(new_entries, idx);
                } else {
                    let j = choose|j: int| entry_has_key(new_entries, j, q);
                    lemma_entries_map_at(new_entries, j);
                    assert(j != idx);
                    assert(new_entries[j] == old_entries[j]);
                    lemma_entries_map_at(old_entries, j);
                }
            }
            assert(expected =~= entries_map(new_entries));
        }
        self.entries = entries;
    }
}


/// The table that results from storing, in order, the texture `ids[i]` under
/// the key of `reqs[i]`.
pub open spec fn loaded_map(reqs: Seq<(Seq<char>, Seq<char>)>, ids: Seq<u32>) -> Map<Seq<char>, u32>
    decreases reqs.len(),
{
    if reqs.len() == 0 || ids.len() == 0 {
        Map::empty()
    } else {
        loaded_map(reqs.drop_last(), ids.drop_last()).insert(reqs.last().0, ids.last())
    }
}

/// The views of a sequence of textures.
pub open spec fn texture_ids(ts: Seq<Texture>) -> Seq<u32> {
    ts.map_values(|t: Texture| t@)
}

/// The binding of the texture named `name`, if the table holds it, to the
/// texture unit `unit`.
pub open spec fn binding(m: Map<Seq<char>, u32>, unit: u32, name: Option<Seq<char>>) -> Seq<(u32, u32)> {
    match name {
        Some(n) => if m.dom().contains(n) {
            seq![(unit, m[n])]
        } else {
            Seq::empty()
        },
        None => Seq::empty(),
    }
}

/// The bindings a mesh makes before it is drawn: its albedo to unit 0, its
/// specular map to unit 1 and its normal map to unit 2, each where the mesh
/// names it and the table holds it.
pub open spec fn bindings_of(
    m: Map<Seq<char>, u32>,
    t: (Option<Seq<char>>, Option<Seq<char>>, Option<Seq<char>>),
) -> Seq<(u32, u32)> {
    binding(m, 0, t.0) + binding(m, 1, t.1) + binding(m, 2, t.2)
}

/// The views of a sequence of bindings.
pub open spec fn bindings_view(bs: Seq<(u32, Texture)>) -> Seq<(u32, u32)> {
    bs.map_values(|b: (u32, Texture)| (b.0, b.1@))
}

/// What two sequences together contain is what either contains.
proof fn lemma_contains_concat<A>(a: Seq<A>, b: Seq<A>)
    ensures
        forall|x: A| #[trigger] (a + b).contains(x) <==> a.contains(x) || b.contains(x),
{
    assert forall|x: A| #[trigger] (a + b).contains(x) <==> a.contains(x) || b.contains(x) by {
        let c = a + b;
        if c.contains(x) {
            let i = choose|i: int| 0 <= i < c.len() && c[i] == x;
            if i < a.len() {
                assert(a[i] == x);
            } else {
                assert(b[i - a.len()] == x);
            }
        }
        if a.contains(x) {
            let i = choose|i: int| 0 <= i < a.len() && a[i] == x;
            assert(c[i] == x);
        }
        if b.contains(x) {
            let i = choose|i: int| 0 <= i < b.len() && b[i] == x;
            assert(c[a.len() + i] == x);
        }
    }
}

/// Each texture a mesh binds goes to the unit of its slot, whatever the other
/// slots hold: unit 0 gets the albedo, unit 1 the specular map and unit 2 the
/// normal map, each exactly when the mesh names it and the table holds it; no
/// other unit is used.
pub proof fn lemma_bindings_by_slot(
    m: Map<Seq<char>, u32>,
    t: (Option<Seq<char>>, Option<Seq<char>>, Option<Seq<char>>),
)
    ensures
        forall|i: int| 0 <= i < bindings_of(m, t).len() ==> #[trigger] bindings_of(m, t)[i].0 < 3,
        forall|id: u32|
            #[trigger] bindings_of(m, t).contains((0u32, id)) <==> (t.0 matches Some(n) && lookup(m, n) == Some(id)),
        forall|id: u32|
            #[trigger] bindings_of(m, t).contains((1u32, id)) <==> (t.1 matches Some(n) && lookup(m, n) == Some(id)),
        forall|id: u32|
            #[trigger] bindings_of(m, t).contains((2u32, id)) <==> (t.2 matches Some(n) && lookup(m, n) == Some(id)),
{
    let b0 = binding(m, 0, t.0);
    let b1 = binding(m, 1, t.1);
    let b2 = binding(m, 2, t.2);
    lemma_contains_concat(b0, b1);
    lemma_contains_concat(b0 + b1, b2);
    assert forall|u: u32, id: u32, name: Option<Seq<char>>| #[trigger] binding(m, u, name).contains((u, id)) <==> (
        name matches Some(n) && lookup(m, n) == Some(id)) by {
        let b = binding(m, u, name);
        if b.contains((u, id)) {
            let i = choose|i: int| 0 <= i < b.len() && b[i] == (u, id);
            assert(b.len() == 1);
        }
        if name matches Some(n) && lookup(m, n) == Some(id) {
            assert(b[0] == (u, id));
        }
    }
    assert forall|u: u32, v: u32, id: u32, name: Option<Seq<char>>| u != v implies !#[trigger] binding(m, u, name).contains((v, id)) by {
        let b = binding(m, u, name);
        if b.contains((v, id)) {
            let i = choose|i: int| 0 <= i < b.len() && b[i] == (v, id);
            assert(b.len() == 1);
        }
    }
    assert forall|i: int| 0 <= i < bindings_of(m, t).len() implies #[trigger] bindings_of(m, t)[i].0 < 3 by {
        let all = bindings_of(m, t);
        assert(all == b0 + b1 + b2);
        assert(all.contains(all[i]));
        if b0.contains(all[i]) {
            let j = choose|j: int| 0 <= j < b0.len() && b0[j] == all[i];
        } else if b1.contains(all[i]) {
            let j = choose|j: int| 0 <= j < b1.len() && b1[j] == all[i];
        } else {
            assert(b2.contains(all[i]));
            let j = choose|j: int| 0 <= j < b2.len() && b2[j] == all[i];
        }
    }
    assert forall|id: u32| #[trigger] bindings_of(m, t).contains((0u32, id)) <==> (t.0 matches Some(n) && lookup(m, n) == Some(id)) by {
        assert(bindings_of(m, t) == b0 + b1 + b2);
        assert(b0.contains((0u32, id)) <==> (t.0 matches Some(n) && lookup(m, n) == Some(id)));
        assert(!b1.contains((0u32, id)));
        assert(!b2.contains((0u32, id)));
    }
    assert forall|id: u32| #[trigger] bindings_of(m, t).contains((1u32, id)) <==> (t.1 matches Some(n) && lookup(m, n) == Some(id)) by {
        assert(bindings_of(m, t) == b0 + b1 + b2);
        assert(b1.contains((1u32, id)) <==> (t.1 matches Some(n) && lookup(m, n) == Some(id)));
        assert(!b0.contains((1u32, id)));
        assert(!b2.contains((1u32, id)));
    }
    assert forall|id: u32| #[trigger] bindings_of(m, t).contains((2u32, id)) <==> (t.2 matches Some(n) && lookup(m, n) == Some(id)) by {
        assert(bindings_of(m, t) == b0 + b1 + b2);
        assert(b2.contains((2u32, id)) <==> (t.2 matches Some(n) && lookup(m, n) == Some(id)));
        assert(!b0.contains((2u32, id)));
        assert(!b1.contains((2u32, id)));
    }
}

impl TextureTable {
    /// The table of the textures loaded for `requests`, `textures[i]` being
    /// the texture loaded for `requests[i]`.
    pub fn from_loaded(requests: &Vec<TextureRequest>, textures: Vec<Texture>) -> (t: TextureTable)
        requires
            requests@.len() == textures@.len(),
        ensures
            t@ == loaded_map(requests_view(requests@), texture_ids(textures@)),
    {
        let mut table = TextureTable::new();
        let mut i: usize = 0;
        while i < requests.len()
            invariant
                i <= requests@.len(),
                requests@.len() == textures@.len(),
                table@ == loaded_map(
                    requests_view(requests@.take(i as int)),
                    texture_ids(textures@.take(i as int)),
                ),
            decreases requests@.len() - i,
        {
            table.insert(requests[i].key.clone(), textures[i]);
            proof {
                let r = requests_view(requests@.take(i + 1));
                let ids = texture_ids(textures@.take(i + 1));
                assert(r.drop_last() =~= requests_view(requests@.take(i as int)));
                assert(ids.drop_last() =~= texture_ids(textures@.take(i as int)));
                assert(r.last().0 == requests@[i as int].key@);
                assert(ids.last() == textures@[i as int]@);
            }
            i = i + 1;
        }
        assert(requests@.take(i as int) =~= requests@);
        assert(textures@.take(i as int) =~= textures@);
        table
    }

    /// The textures that the mesh `mesh` binds before it is drawn, with the
    /// texture unit of each.
    pub fn texture_bindings(&self, mesh: &MeshTextures) -> (bs: Vec<(u32, Texture)>)
        ensures
            bindings_view(bs@) == bindings_of(self@, mesh@),
            forall|i: int| 0 <= i < bs@.len() ==> #[trigger] bs@[i].0 < 3,
            forall|id: u32|
                #[trigger] bindings_view(bs@).contains((0u32, id)) <==> (mesh@.0 matches Some(n) && lookup(self@, n) == Some(id)),
            forall|id: u32|
                #[trigger] bindings_view(bs@).contains((1u32, id)) <==> (mesh@.1 matches Some(n) && lookup(self@, n) == Some(id)),
            forall|id: u32|
                #[trigger] bindings_view(bs@).contains((2u32, id)) <==> (mesh@.2 matches Some(n) && lookup(self@, n) == Some(id)),
    {
        proof {
            lemma_bindings_by_slot(self@, mesh@);
        }
        let mut bs: Vec<(u32, Texture)> = Vec::new();
        if let Some(albedo) = &mesh.albedo {
            if let Some(texture) = self.get(albedo) {
                bs.push((0, texture));
            }
        }
        if let Some(specular) = &mesh.specular {
            if let Some(texture) = self.get(specular) {
                bs.push((1, texture));
            }
        }
        if let Some(normal) = &mesh.normal {
            if let Some(texture) = self.get(normal) {
                bs.push((2, texture));
            }
        }
        assert(bindings_view(bs@) =~= bindings_of(self@, mesh@));
        bs
    }
}

/// Reading a table back after storing a texture gives that texture under
/// its key and what the table held before under every other key.
pub proof fn lemma_table_read_after_write(m: Map<Seq<char>, u32>, key: Seq<char>, id: u32, other: Seq<char>)
    requires
        other != key,
    ensures
        lookup(m.insert(key, id), key) == Some(id),
        lookup(m.insert(key, id), other) == lookup(m, other),
{
}

/// Loading textures for requests with distinct keys stores each request's
/// texture under its key, and nothing under any other key.
pub proof fn lemma_loaded_map(reqs: Seq<(Seq<char>, Seq<char>)>, ids: Seq<u32>)
    requires
        reqs.len() == ids.len(),
        forall|i: int, j: int| 0 <= i < j < reqs.len() ==> #[trigger] reqs[i].0 != #[trigger] reqs[j].0,
    ensures
        forall|i: int| 0 <= i < reqs.len() ==> #[trigger] lookup(loaded_map(reqs, ids), reqs[i].0) == Some(ids[i]),
        forall|k: Seq<char>| #[trigger] loaded_map(reqs, ids).dom().contains(k) ==> exists|i: int|
            0 <= i < reqs.len() && reqs[i].0 == k,
    decreases reqs.len(),
{
    if reqs.len() > 0 {
        let r0 = reqs.drop_last();
        let i0 = ids.drop_last();
        lemma_loaded_map(r0, i0);
        let m = loaded_map(reqs, ids);
        assert forall|i: int| 0 <= i < reqs.len() implies #[trigger] lookup(m, reqs[i].0) == Some(ids[i]) by {
            if i < reqs.len() - 1 {
                assert(r0[i] == reqs[i]);
                assert(i0[i] == ids[i]);
                assert(lookup(loaded_map(r0, i0), r0[i].0) == Some(i0[i]));
            }
        }
        assert forall|k: Seq<char>| #[trigger] m.dom().contains(k) implies exists|i: int|
            0 <= i < reqs.len() && reqs[i].0 == k by {
            if k == reqs.last().0 {
                assert(reqs[reqs.len() - 1].0 == k);
            } else {
                assert(loaded_map(r0, i0).dom().contains(k));
                let i = choose|i: int| 0 <= i < r0.len() && r0[i].0 == k;
                assert(reqs[i] == r0[i]);
            }
        }
    }
}


/// Once the textures requested for a model's materials are loaded, every
/// texture that a mesh names is in the table, so the mesh binds all of them;
/// provided that its material does not name both a bump map and a normal
/// texture (see `lemma_mesh_textures_are_requested`).
pub proof fn lemma_mesh_textures_are_loaded(path: Seq<char>, ms: Seq<MaterialTextures>, i: int, ids: Seq<u32>)
    requires
        0 <= i < ms.len(),
        !(bump_map(ms[i]).len() > 0 && ms[i].normal_texture@.len() > 0),
        ids.len() == first_by_key(all_material_requests(path, ms)).len(),
    ensures
        ({
            let table = loaded_map(first_by_key(all_material_requests(path, ms)), ids);
            let t = mesh_textures_of(ms[i]);
            &&& t.0 matches Some(n) ==> table.dom().contains(n)
            &&& t.1 matches Some(n) ==> table.dom().contains(n)
            &&& t.2 matches Some(n) ==> table.dom().contains(n)
        }),
{
    let reqs = first_by_key(all_material_requests(path, ms));
    lemma_first_by_key(all_material_requests(path, ms));
    lemma_loaded_map(reqs, ids);
    lemma_mesh_textures_are_requested(path, ms, i);
    assert forall|n: Seq<char>| has_key(reqs, n) implies loaded_map(reqs, ids).dom().contains(n) by {
        let j = choose|j: int| 0 <= j < reqs.len() && #[trigger] reqs[j].0 == n;
        assert(lookup(loaded_map(reqs, ids), reqs[j].0) == Some(ids[j]));
    }
}

} // verus!
