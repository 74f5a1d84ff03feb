//! Resource paths inside a bundle, resolved so that they never leave it.
use vstd::prelude::*;
use vstd::string::*;

verus! {

/// One component of a relative path as written in an index document.
#[derive(Debug, PartialEq, Eq)]
pub enum PathComponent {
    /// A root directory or a drive prefix: ignored inside a bundle.
    Root,
    /// `.`
    Current,
    /// `..`
    Parent,
    /// An ordinary name.
    Normal(String),
}

/// How a path string splits into components.
pub uninterp spec fn path_components_of(s: Seq<char>) -> Seq<PathComponent>;

/// Relies on `std::path::Path::components`: the components of a path, in
/// order; the result depends on the text alone.
#[verifier::external_body]
pub(crate) fn path_components(s: &str) -> (r: Vec<PathComponent>)
    ensures
        r@ == path_components_of(s@),
{
    std::path::Path::new(s).components().map(|c| match c {
        std::path::Component::Prefix(_) => PathComponent::Root,
        std::path::Component::RootDir => PathComponent::Root,
        std::path::Component::CurDir => PathComponent::Current,
        std::path::Component::ParentDir => PathComponent::Parent,
        std::path::Component::Normal(n) => PathComponent::Normal(n.to_string_lossy().into_owned()),
    }).collect()
}

/// The segments that a sequence of components leads to below the bundle root:
/// a `..` drops the last segment only where one was pushed before.
pub open spec fn resolve_spec(cs: Seq<PathComponent>) -> Seq<Seq<char>>
    decreases cs.len(),
{
    if cs.len() == 0 {
        Seq::empty()
    } else {
        let prev = resolve_spec(cs.drop_last());
        match cs.last() {
            PathComponent::Parent => if prev.len() > 0 {
                prev.drop_last()
            } else {
                prev
            },
            PathComponent::Normal(n) => prev.push(n@),
            _ => prev,
        }
    }
}

/// `root` followed by each segment, each after a `/`.
pub open spec fn join_spec(root: Seq<char>, segs: Seq<Seq<char>>) -> Seq<char>
    decreases segs.len(),
{
    if segs.len() == 0 {
        root
    } else {
        join_spec(root, segs.drop_last()) + seq!['/'] + segs.last()
    }
}

/// The segments below the bundle root that `cs` leads to.
pub fn resolve_components(cs: &Vec<PathComponent>) -> (r: Vec<String>)
    ensures
        r@.map_values(|s: String| s@) == resolve_spec(cs@),
{
    let mut r: Vec<String> = Vec::new();
    let mut i: usize = 0;
    while i < cs.len()
        invariant
            i <= cs@.len(),
            r@.map_values(|s: String| s@) == resolve_spec(cs@.take(i as int)),
        decreases cs@.len() - i,
    {
        assert(cs@.take(i as int + 1).drop_last() =~= cs@.take(i as int));
        match &cs[i] {
            PathComponent::Parent => {
                if r.len() > 0 {
                    r.pop();
                    assert(r@.map_values(|s: String| s@) =~= resolve_spec(cs@.take(i as int)).drop_last());
                }
            },
            PathComponent::Normal(n) => {
                r.push(n.clone());
                assert(r@.map_values(|s: String| s@) =~= resolve_spec(cs@.take(i as int)).push(n@));
            },
            _ => {},
        }
        i = i + 1;
    }
    assert(cs@.take(cs@.len() as int) =~= cs@);
    r
}

/// The path that `path` names inside the bundle at `root`: its components are
/// resolved as `resolve_spec` says and joined below `root` with `/`, so that the
/// result never leaves `root`.
pub fn into_relative_path(root: &str, path: &str) -> (r: String)
    ensures
        r@ == join_spec(root@, resolve_spec(path_components_of(path@))),
{
    let cs = path_components(path);
    let segs = resolve_components(&cs);
    let ghost views = segs@.map_values(|s: String| s@);
    let mut r = String::from_str(root);
    let mut i: usize = 0;
    while i < segs.len()
        invariant
            i <= segs@.len(),
            views == segs@.map_values(|s: String| s@),
            r@ == join_spec(root@, views.take(i as int)),
        decreases segs@.len() - i,
    {
        assert(views.take(i as int + 1).drop_last() =~= views.take(i as int));
        let ghost before = r@;
        r.append("/");
        r.append(segs[i].as_str());
        proof {
            reveal_strlit("/");
            assert(views.take(i as int + 1).last() == segs@[i as int]@);
            assert(r@ =~= before + seq!['/'] + segs@[i as int]@);
        }
        i = i + 1;
    }
    assert(views.take(segs@.len() as int) =~= views);
    r
}

} // verus!
