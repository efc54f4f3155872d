use vstd::prelude::*;

verus! {

/// How many of the first `n` candidates carry a mesh.
pub open spec fn mesh_count(has_mesh: Seq<bool>, n: int) -> nat
    decreases n,
{
    if n <= 0 {
        0
    } else {
        mesh_count(has_mesh, n - 1) + if has_mesh[n - 1] {
            1nat
        } else {
            0nat
        }
    }
}

/// Why no single mesh could be picked among a node's children.
#[derive(Clone, Copy, Debug, PartialEq, Eq, Structural)]
pub enum ExtractError {
    /// `found` children carry a mesh, where exactly one must.
    MeshCount { found: usize },
}

proof fn lemma_mesh_count_bound(has_mesh: Seq<bool>, n: int)
    requires
        0 <= n <= has_mesh.len(),
    ensures
        mesh_count(has_mesh, n) <= n,
        mesh_count(has_mesh, n) == 0 ==> forall|i: int| 0 <= i < n ==> !has_mesh[i],
    decreases n,
{
    if n > 0 {
        lemma_mesh_count_bound(has_mesh, n - 1);
    }
}

/// Picks the one child that carries a mesh, given for each child whether it does.
/// Zero or several such children are a content error.
pub fn select_mesh(has_mesh: &Vec<bool>) -> (r: Result<usize, ExtractError>)
    ensures
        r is Ok <==> mesh_count(has_mesh@, has_mesh@.len() as int) == 1,
        r is Ok ==> r->Ok_0 < has_mesh@.len() && has_mesh@[r->Ok_0 as int],
        r is Ok ==> forall|i: int| 0 <= i < has_mesh@.len() && i != r->Ok_0 ==> !has_mesh@[i],
        r is Err ==> r->Err_0 == (ExtractError::MeshCount {
            found: mesh_count(has_mesh@, has_mesh@.len() as int) as usize,
        }),
{
    let mut found: usize = 0;
    let mut at: usize = 0;
    let mut i: usize = 0;
    while i < has_mesh.len()
        invariant
            i <= has_mesh@.len(),
            found == mesh_count(has_mesh@, i as int),
            found > 0 ==> at < i && has_mesh@[at as int],
            found == 1 ==> forall|k: int| 0 <= k < i && k != at ==> !has_mesh@[k],
        decreases has_mesh@.len() - i,
    {
        proof {
            lemma_mesh_count_bound(has_mesh@, i as int);
            if found == 0 {
                lemma_mesh_count_bound(has_mesh@, i as int);
            }
        }
        if has_mesh[i] {
            if found == 0 {
                at = i;
            }
            found = found + 1;
        }
        i = i + 1;
    }
    if found == 1 {
        Ok(at)
    } else {
        Err(ExtractError::MeshCount { found })
    }
}

/// What `str::to_lowercase` makes of a name, as characters.
pub uninterp spec fn lower_of(s: Seq<char>) -> Seq<char>;

/// Relies on `str::to_lowercase`: the lowercase form of a string depends on its
/// characters alone, and the empty string stays empty.
#[verifier::external_body]
fn lowercase_chars(s: &str) -> (r: Vec<char>)
    ensures
        r@ == lower_of(s@),
        s@.len() == 0 ==> r@.len() == 0,
{
    s.to_lowercase().chars().collect()
}

/// `needle` occurs in `hay` at position `i`.
pub open spec fn occurs_at(hay: Seq<char>, needle: Seq<char>, i: int) -> bool {
    0 <= i && i + needle.len() <= hay.len() && hay.subrange(i, i + needle.len()) == needle
}

/// `needle` occurs somewhere in `hay`.
pub open spec fn occurs_in(hay: Seq<char>, needle: Seq<char>) -> bool {
    exists|i: int| #[trigger] occurs_at(hay, needle, i)
}

/// Whether the already lowercased name `lowered` holds the tag `tag`.
pub fn matches_tag(lowered: &Vec<char>, tag: &Vec<char>) -> (r: bool)
    ensures
        r == occurs_in(lowered@, tag@),
{
    let n = lowered.len();
    let m = tag.len();
    if m > n {
        assert forall|i: int| !#[trigger] occurs_at(lowered@, tag@, i) by {}
        return false;
    }
    let mut i: usize = 0;
    while i <= n - m
        invariant
            n == lowered@.len(),
            m == tag@.len(),
            m <= n,
            i <= n - m + 1,
            forall|k: int| 0 <= k < i ==> !#[trigger] occurs_at(lowered@, tag@, k),
        decreases n - m + 1 - i,
    {
        let mut j: usize = 0;
        while j < m && lowered[i + j] == tag[j]
            invariant
                n == lowered@.len(),
                m == tag@.len(),
                i + m <= n,
                j <= m,
                forall|k: int| 0 <= k < j ==> lowered@[i + k] == tag@[k],
            decreases m - j,
        {
            j = j + 1;
        }
        if j == m {
            assert(lowered@.subrange(i as int, i + m) =~= tag@);
            assert(occurs_at(lowered@, tag@, i as int));
            return true;
        }
        assert(lowered@.subrange(i as int, i + m)[j as int] != tag@[j as int]);
        i = i + 1;
    }
    assert forall|k: int| !#[trigger] occurs_at(lowered@, tag@, k) by {
        if 0 <= k < i {
        }
    }
    false
}

/// Whether a node's name carries `tag`, compared without regard to case: `tag` is
/// written in lowercase and searched for in the lowercased name.
pub fn has_tag(name: &str, tag: &Vec<char>) -> (r: bool)
    ensures
        r == occurs_in(lower_of(name@), tag@),
{
    let lowered = lowercase_chars(name);
    matches_tag(&lowered, tag)
}

/// The tag of a node whose single mesh is a navigation mesh.
pub fn navmesh_tag() -> (r: Vec<char>)
    ensures
        r@ == seq!['[', 'n', 'a', 'v', 'm', 'e', 's', 'h', ']'],
{
    let r = vec!['[', 'n', 'a', 'v', 'm', 'e', 's', 'h', ']'];
    assert(r@ =~= seq!['[', 'n', 'a', 'v', 'm', 'e', 's', 'h', ']']);
    r
}

/// The tag of a node whose single mesh is a collision mesh.
pub fn collider_tag() -> (r: Vec<char>)
    ensures
        r@ == seq!['[', 'c', 'o', 'l', 'l', 'i', 'd', 'e', 'r', ']'],
{
    let r = vec!['[', 'c', 'o', 'l', 'l', 'i', 'd', 'e', 'r', ']'];
    assert(r@ =~= seq!['[', 'c', 'o', 'l', 'l', 'i', 'd', 'e', 'r', ']']);
    r
}

/// The tag of a node whose ground material is to repeat its texture.
pub fn ground_tag() -> (r: Vec<char>)
    ensures
        r@ == seq!['[', 'g', 'r', 'o', 'u', 'n', 'd', ']'],
{
    let r = vec!['[', 'g', 'r', 'o', 'u', 'n', 'd', ']'];
    assert(r@ =~= seq!['[', 'g', 'r', 'o', 'u', 'n', 'd', ']']);
    r
}

} // verus!
