//! The path mapper: which files a synchronization direction selects, and the
//! destination path each one maps to.
//!
//! Forward discovery selects every `.ipynb` file in the scanned tree and maps
//! it into a `.nb` subdirectory of its parent, with the extension token
//! replaced by `.py`. Reverse discovery selects every `.py` file lying
//! directly inside a `.nb` directory and maps it back out into the parent of
//! that `.nb` directory, with the token replaced by `.ipynb`. The mapping is
//! a pure function of the path, so a run can always be repeated safely.

use vstd::prelude::*;

use crate::paths::{
    file_name_start, join_paths, lemma_file_name_start_props, lemma_file_name_start_unique,
    lemma_join_parts,
    lemma_no_slash_whole_name, lemma_parent_join_id, lemma_replace_token_at_end,
    lemma_suffix_in_file_name, spec_file_name, spec_is_relative, spec_is_suffix, spec_join,
    spec_parent, spec_replace, spec_stem, token_absent, token_not_before_end, token_only_at_end,
};
use crate::paths::{file_name_of, is_suffix_of, parent_of, replace_all, str_eq};

verus! {

/// Which way a conversion runs: rich notebook to plain script, or back.
#[derive(Clone, Copy, Debug, PartialEq, Eq)]
pub enum Direction {
    ForwardToScript,
    ReverseToNotebook,
}

/// One file to convert: where it lies, where its converted form belongs, and
/// the direction that convention was applied in.
#[derive(Clone, Debug, PartialEq, Eq)]
pub struct Directive {
    pub source_path: String,
    pub destination_path: String,
    pub direction: Direction,
}

/// The mathematical content of a [`Directive`].
pub ghost struct DirectiveView {
    pub source_path: Seq<char>,
    pub destination_path: Seq<char>,
    pub direction: Direction,
}

impl View for Directive {
    type V = DirectiveView;

    open spec fn view(&self) -> DirectiveView {
        DirectiveView {
            source_path: self.source_path@,
            destination_path: self.destination_path@,
            direction: self.direction,
        }
    }
}

/// The notebook extension token, `.ipynb`.
pub open spec fn ipynb_token() -> Seq<char> {
    seq!['.', 'i', 'p', 'y', 'n', 'b']
}

/// The script extension token, `.py`.
pub open spec fn py_token() -> Seq<char> {
    seq!['.', 'p', 'y']
}

/// The name of the hidden sibling directory that holds script counterparts.
pub open spec fn nb_dir_token() -> Seq<char> {
    seq!['.', 'n', 'b']
}

/// Does a path match the source pattern of `direction`? Forward takes any
/// path ending in `.ipynb`; reverse takes any path ending in `.py` that lies
/// directly inside a directory literally named `.nb`.
pub open spec fn spec_matches(direction: Direction, p: Seq<char>) -> bool {
    match direction {
        Direction::ForwardToScript => spec_is_suffix(ipynb_token(), p),
        Direction::ReverseToNotebook => spec_is_suffix(py_token(), p) && spec_file_name(
            spec_parent(p),
        ) == nb_dir_token(),
    }
}

/// The destination a matched path maps to. Forward places the renamed file
/// under `parent/.nb/`; reverse places it in the parent of the `.nb`
/// directory. The file name has the source extension token replaced by the
/// target one, every occurrence, as the plain string replacement does it.
pub open spec fn spec_destination(direction: Direction, p: Seq<char>) -> Seq<char> {
    match direction {
        Direction::ForwardToScript => spec_join(
            spec_join(spec_parent(p), nb_dir_token()),
            spec_replace(spec_file_name(p), ipynb_token(), py_token()),
        ),
        Direction::ReverseToNotebook => spec_join(
            spec_parent(spec_parent(p)),
            spec_replace(spec_file_name(p), py_token(), ipynb_token()),
        ),
    }
}

/// The directive a matched path gives rise to.
pub open spec fn spec_directive(direction: Direction, p: Seq<char>) -> DirectiveView {
    DirectiveView {
        source_path: p,
        destination_path: spec_destination(direction, p),
        direction: direction,
    }
}

/// The directives that discovery derives from an enumerated file tree: one
/// per matching path, in enumeration order.
pub open spec fn spec_discover(direction: Direction, ps: Seq<Seq<char>>) -> Seq<DirectiveView>
    decreases ps.len(),
{
    if ps.len() == 0 {
        Seq::empty()
    } else {
        let rest = spec_discover(direction, ps.drop_last());
        if spec_matches(direction, ps.last()) {
            rest.push(spec_directive(direction, ps.last()))
        } else {
            rest
        }
    }
}

/// Does `p` match the source pattern of `direction`?
pub fn matches_pattern(direction: Direction, p: &str) -> (r: bool)
    ensures
        r == spec_matches(direction, p@),
{
    proof {
        reveal_strlit(".ipynb");
        reveal_strlit(".py");
        reveal_strlit(".nb");
        assert(".ipynb"@ =~= ipynb_token());
        assert(".py"@ =~= py_token());
        assert(".nb"@ =~= nb_dir_token());
    }
    match direction {
        Direction::ForwardToScript => is_suffix_of(".ipynb", p),
        Direction::ReverseToNotebook => {
            let ends_py = is_suffix_of(".py", p);
            let dir = parent_of(p);
            let dir_name = file_name_of(dir);
            let inside_nb = str_eq(dir_name, ".nb");
            ends_py && inside_nb
        },
    }
}

/// The destination path `p` maps to under `direction`.
pub fn destination_for(direction: Direction, p: &str) -> (r: String)
    ensures
        r@ == spec_destination(direction, p@),
{
    proof {
        reveal_strlit(".ipynb");
        reveal_strlit(".py");
        reveal_strlit(".nb");
        assert(".ipynb"@ =~= ipynb_token());
        assert(".py"@ =~= py_token());
        assert(".nb"@ =~= nb_dir_token());
    }
    match direction {
        Direction::ForwardToScript => {
            let dir = parent_of(p);
            let name = file_name_of(p);
            let new_name = replace_all(name, ".ipynb", ".py");
            let nb_dir = join_paths(dir, ".nb");
            join_paths(nb_dir.as_str(), new_name.as_str())
        },
        Direction::ReverseToNotebook => {
            let dir = parent_of(p);
            let grandparent = parent_of(dir);
            let name = file_name_of(p);
            let new_name = replace_all(name, ".py", ".ipynb");
            join_paths(grandparent, new_name.as_str())
        },
    }
}

/// The full directive for a matched path.
pub fn directive_for(direction: Direction, p: &str) -> (d: Directive)
    ensures
        d@ == spec_directive(direction, p@),
{
    let destination_path = destination_for(direction, p);
    Directive { source_path: p.to_owned(), destination_path, direction }
}

/// Discovery over an enumerated file tree: every path that matches the
/// direction's source pattern becomes a directive, in enumeration order.
/// The result is a pure function of the inputs, so repeating a run over an
/// unchanged tree reproduces it exactly.
pub fn discover(direction: Direction, tree: &Vec<String>) -> (ds: Vec<Directive>)
    ensures
        ds@.len() == spec_discover(direction, tree.deep_view()).len(),
        forall|i: int|
            0 <= i < ds@.len() ==> ds@[i]@ == spec_discover(direction, tree.deep_view())[i],
{
    let ghost ps = tree.deep_view();
    let mut ds: Vec<Directive> = Vec::new();
    let n = tree.len();
    let mut i: usize = 0;
    while i < n
        invariant
            i <= n,
            n == tree@.len(),
            ps == tree.deep_view(),
            ds@.len() == spec_discover(direction, ps.take(i as int)).len(),
            forall|j: int|
                0 <= j < ds@.len() ==> ds@[j]@ == spec_discover(direction, ps.take(i as int))[j],
        decreases n - i,
    {
        proof {
            assert(ps[i as int] == tree@[i as int]@);
            assert(ps.take(i + 1).drop_last() =~= ps.take(i as int));
            assert(ps.take(i + 1).last() == ps[i as int]);
        }
        let p = tree[i].as_str();
        if matches_pattern(direction, p) {
            let d = directive_for(direction, p);
            ds.push(d);
        }
        i = i + 1;
    }
    proof {
        assert(ps.take(n as int) =~= ps);
    }
    ds
}

/// Law: a notebook path whose file name carries the `.ipynb` token only as
/// its ending maps forward to the sibling script slot `parent/.nb/<stem>.py`.
/// Together with the contract of [`destination_for`], which pins the computed
/// value to this pure function of the path, the mapping is deterministic:
/// repeated discovery over an unchanged tree yields the same destinations.
pub proof fn lemma_forward_destination_shape(p: Seq<char>)
    requires
        spec_matches(Direction::ForwardToScript, p),
        token_not_before_end(spec_file_name(p), ipynb_token()),
    ensures
        spec_destination(Direction::ForwardToScript, p) == spec_join(
            spec_join(spec_parent(p), nb_dir_token()),
            spec_stem(spec_file_name(p), ipynb_token()) + py_token(),
        ),
{
    lemma_suffix_in_file_name(p, ipynb_token());
    lemma_replace_token_at_end(spec_file_name(p), ipynb_token(), py_token());
}

/// Law: a script path `dir/.nb/name.py` whose file name carries the `.py`
/// token only as its ending maps in reverse to `dir/name.ipynb` — back out of
/// the hidden directory, with the notebook extension restored.
pub proof fn lemma_reverse_destination_shape(p: Seq<char>)
    requires
        spec_matches(Direction::ReverseToNotebook, p),
        token_not_before_end(spec_file_name(p), py_token()),
    ensures
        spec_destination(Direction::ReverseToNotebook, p) == spec_join(
            spec_parent(spec_parent(p)),
            spec_stem(spec_file_name(p), py_token()) + ipynb_token(),
        ),
{
    lemma_suffix_in_file_name(p, py_token());
    lemma_replace_token_at_end(spec_file_name(p), py_token(), ipynb_token());
}

/// Law: the two mappings are structural inverses. A relative notebook path
/// `dir/name.ipynb` maps forward to `dir/.nb/name.py`; that destination
/// matches the reverse pattern, and the reverse mapping carries it back to
/// `dir/name.ipynb` exactly. The token conditions keep the string
/// replacement unambiguous: `.ipynb` ends the file name and occurs nowhere
/// else in it, and the remaining stem contains no `.py`. A name such as
/// `a.py.ipynb` falls outside them and does not round-trip.
pub proof fn lemma_round_trip(p: Seq<char>)
    requires
        spec_is_relative(p),
        spec_matches(Direction::ForwardToScript, p),
        token_not_before_end(spec_file_name(p), ipynb_token()),
        token_absent(spec_stem(spec_file_name(p), ipynb_token()), py_token()),
    ensures
        spec_matches(Direction::ReverseToNotebook, spec_destination(Direction::ForwardToScript, p)),
        spec_destination(
            Direction::ReverseToNotebook,
            spec_destination(Direction::ForwardToScript, p),
        ) == p,
{
    let name = spec_file_name(p);
    let stem = spec_stem(name, ipynb_token());
    let dir = spec_parent(p);
    let k = file_name_start(p);
    lemma_file_name_start_props(p);
    lemma_suffix_in_file_name(p, ipynb_token());
    lemma_forward_destination_shape(p);
    let new_name = stem + py_token();
    let nb_dir = spec_join(dir, nb_dir_token());
    let q = spec_join(nb_dir, new_name);
    assert(spec_destination(Direction::ForwardToScript, p) == q);

    // The file name, hence the stem and the renamed file, contain no `/`.
    assert forall|j: int| 0 <= j < name.len() implies name[j] != '/' by {
        assert(name[j] == p[k + j]);
    }
    assert forall|j: int| 0 <= j < new_name.len() implies new_name[j] != '/' by {
        if j < stem.len() {
            assert(new_name[j] == name[j]);
        } else {
            assert(new_name[j] == py_token()[j - stem.len()]);
        }
    }
    assert(nb_dir.len() > 0);
    lemma_join_parts(nb_dir, new_name);

    // The destination matches the reverse pattern: it ends in `.py` and its
    // directory is literally named `.nb`.
    assert(spec_is_suffix(py_token(), new_name)) by {
        assert(new_name.subrange(new_name.len() - 3, new_name.len() as int) =~= py_token());
    }
    assert(spec_is_suffix(py_token(), q)) by {
        assert(q.subrange(q.len() - 3, q.len() as int) =~= new_name.subrange(
            new_name.len() - 3,
            new_name.len() as int,
        ));
    }
    if dir.len() == 0 {
        assert(nb_dir == nb_dir_token());
        lemma_no_slash_whole_name(nb_dir);
    } else {
        lemma_join_parts(dir, nb_dir_token());
    }
    assert(spec_file_name(spec_parent(q)) == nb_dir_token());
    assert(spec_parent(nb_dir) == dir) by {
        if dir.len() == 0 {
            assert(spec_parent(nb_dir) =~= dir);
        }
    }

    // The `.py` token ends the renamed file and occurs nowhere earlier, so
    // the reverse replacement restores exactly the original file name.
    assert(token_only_at_end(new_name, py_token())) by {
        assert forall|i: int| 0 <= i < new_name.len() - 3 implies #[trigger] new_name.subrange(
            i,
            i + 3,
        ) != py_token() by {
            if i + 3 <= stem.len() {
                assert(stem.subrange(i, i + py_token().len()) != py_token());
                assert(new_name.subrange(i, i + 3) =~= stem.subrange(i, i + 3));
            } else {
                // The occurrence would straddle the stem boundary, where the
                // appended token starts with `.`.
                assert(new_name[stem.len() as int] == '.');
                if i == stem.len() - 1 {
                    assert(new_name.subrange(i, i + 3)[1] == '.');
                    assert(py_token()[1] == 'p');
                } else {
                    assert(i == stem.len() - 2);
                    assert(new_name.subrange(i, i + 3)[2] == '.');
                    assert(py_token()[2] == 'y');
                }
            }
        }
    }
    lemma_replace_token_at_end(new_name, py_token(), ipynb_token());
    assert(spec_stem(new_name, py_token()) =~= stem);
    assert(stem + ipynb_token() =~= name) by {
        assert(name.subrange(name.len() - 6, name.len() as int) == ipynb_token());
        assert forall|j: int| 0 <= j < name.len() implies (stem + ipynb_token())[j] == name[j] by {
            if j >= stem.len() {
                assert(ipynb_token()[j - stem.len()] == name.subrange(
                    name.len() - 6,
                    name.len() as int,
                )[j - (name.len() - 6)]);
            }
        }
    }
    assert(spec_replace(new_name, py_token(), ipynb_token()) == name);
    lemma_parent_join_id(p);
    assert(spec_destination(Direction::ReverseToNotebook, q) == spec_join(dir, name));
}

/// Law: the forward mapping is oblivious of depth. Prefixing a directory
/// onto a relative path neither makes nor breaks a match, and shifts the
/// destination by exactly that directory: `bar/baz.ipynb` maps to `bar/`
/// followed by what `baz.ipynb` maps to, at any nesting.
pub proof fn lemma_forward_depth_shift(d: Seq<char>, p: Seq<char>)
    requires
        d.len() > 0,
        spec_is_relative(p),
    ensures
        spec_matches(Direction::ForwardToScript, spec_join(d, p)) == spec_matches(
            Direction::ForwardToScript,
            p,
        ),
        spec_matches(Direction::ForwardToScript, p) ==> spec_destination(
            Direction::ForwardToScript,
            spec_join(d, p),
        ) == spec_join(d, spec_destination(Direction::ForwardToScript, p)),
{
    let q = spec_join(d, p);
    let k = file_name_start(p);
    lemma_file_name_start_props(p);

    // The file name starts right after `d/`, shifted by the prefix.
    let kq = d.len() + 1 + k;
    assert forall|j: int| kq <= j < q.len() implies q[j] != '/' by {
        assert(q[j] == p[j - (d.len() + 1)]);
    }
    if k == 0 {
        assert(q[kq - 1] == '/');
    } else {
        assert(q[kq - 1] == p[k - 1]);
    }
    lemma_file_name_start_unique(q, kq as int);
    assert(spec_file_name(q) =~= spec_file_name(p));

    // Matching is decided by the file's own name, not by its depth.
    if p.len() >= ipynb_token().len() {
        assert(q.subrange(q.len() - 6, q.len() as int) =~= p.subrange(
            p.len() - 6,
            p.len() as int,
        ));
    } else {
        assert(!spec_matches(Direction::ForwardToScript, p));
        if spec_is_suffix(ipynb_token(), q) {
            let sep = d.len() as int;
            assert(q.subrange(q.len() - 6, q.len() as int)[sep - (q.len() - 6)] == '/');
            assert(false);
        }
    }

    if spec_matches(Direction::ForwardToScript, p) {
        let renamed = spec_replace(spec_file_name(p), ipynb_token(), py_token());
        assert(spec_replace(spec_file_name(q), ipynb_token(), py_token()) == renamed);
        if k == 0 {
            assert(spec_parent(q) =~= d);
            assert(spec_destination(Direction::ForwardToScript, q) =~= spec_join(
                d,
                spec_destination(Direction::ForwardToScript, p),
            ));
        } else {
            assert(spec_parent(q) =~= spec_join(d, spec_parent(p)));
            assert(spec_destination(Direction::ForwardToScript, q) =~= spec_join(
                d,
                spec_destination(Direction::ForwardToScript, p),
            ));
        }
    }
}

/// Law: discovery is complete — every enumerated path that matches the
/// direction's pattern, at whatever depth in the tree, contributes its
/// directive to the result.
pub proof fn lemma_discover_complete(direction: Direction, ps: Seq<Seq<char>>, i: int)
    requires
        0 <= i < ps.len(),
        spec_matches(direction, ps[i]),
    ensures
        spec_discover(direction, ps).contains(spec_directive(direction, ps[i])),
    decreases ps.len(),
{
    let rest = spec_discover(direction, ps.drop_last());
    if i == ps.len() - 1 {
        let full = rest.push(spec_directive(direction, ps[i]));
        assert(full[full.len() - 1] == spec_directive(direction, ps[i]));
    } else {
        assert(ps.drop_last()[i] == ps[i]);
        lemma_discover_complete(direction, ps.drop_last(), i);
        let j = choose|j: int|
            0 <= j < rest.len() && rest[j] == spec_directive(direction, ps.drop_last()[i]);
        if spec_matches(direction, ps.last()) {
            assert(rest.push(spec_directive(direction, ps.last()))[j] == rest[j]);
        }
    }
}

} // verus!
