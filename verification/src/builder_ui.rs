//! The screen builder's desktop window: where its file picker opens, what a picked file
//! is, and where the project's root lies.
use vstd::prelude::*;

use crate::shell::{
    is_valid_screen_relative_path, join_path, joined_path, path_components, relative_screen_path, segment_char,
    segments_ok, valid_screen_path,
};
use crate::screen::{join_with, lemma_join_prepend};
use crate::text::{
    index_of, is_ws, lemma_index_absent, lemma_index_of, lemma_index_past, split_on, string_of, trim, trim_end,
    trim_start, trim_str,
};

verus! {

/// The file the picker opens at: the initial path, trimmed, in the project at `root`,
/// where it is a valid screen path.
pub open spec fn initial_picker_path(root: Seq<char>, initial: Option<Seq<char>>) -> Option<Seq<char>> {
    match initial {
        Some(raw) => if valid_screen_path(trim(raw)) {
            Some(joined_path(root, trim(raw)))
        } else {
            None
        },
        None => None,
    }
}

/// The file the picker opens at, if the initial path is a valid screen path.
pub fn initial_picker_absolute_path(project_root: &str, initial_path: Option<&str>) -> (r: Option<String>)
    ensures
        match r {
            Some(p) => initial_picker_path(project_root@, match initial_path {
                Some(s) => Some(s@),
                None => None,
            }) == Some(p@),
            None => initial_picker_path(project_root@, match initial_path {
                Some(s) => Some(s@),
                None => None,
            }) is None,
        },
{
    let raw = match initial_path {
        Some(s) => s,
        None => {
            return None;
        },
    };
    let t = trim_str(raw);
    let trimmed = string_of(t.as_slice());
    if !is_valid_screen_relative_path(trimmed.as_str()) {
        return None;
    }
    Some(join_path(project_root, trimmed.as_str()))
}

/// A path the file dialog gives back: a local file, or a URL.
#[derive(Debug, Clone, PartialEq, Eq)]
pub enum DialogFilePath {
    Path(String),
    Url(String),
}

/// The local file a dialog path names; `None` for a URL.
pub fn dialog_file_path_to_path_buf(path: DialogFilePath) -> (r: Option<String>)
    ensures
        match path {
            DialogFilePath::Path(p) => r == Some(p),
            DialogFilePath::Url(_) => r is None,
        },
{
    match path {
        DialogFilePath::Path(p) => Some(p),
        DialogFilePath::Url(_) => None,
    }
}

/// What a directory holds of the project's markers, as probed on disk: a `Cargo.toml`
/// file, `contracts` and `docs` directories, and its canonical path where it has one.
#[derive(Debug, Clone, PartialEq, Eq)]
pub struct DirProbe {
    pub has_workspace: bool,
    pub has_contracts: bool,
    pub has_docs: bool,
    pub canonical: Option<String>,
}

/// The root a probe shows: its canonical path, where it holds all three markers.
pub open spec fn probed_root(p: DirProbe) -> Option<Seq<char>> {
    if p.has_workspace && p.has_contracts && p.has_docs {
        match p.canonical {
            Some(c) => Some(c@),
            None => None,
        }
    } else {
        None
    }
}

/// The root shown by the first probe, in order, that shows one.
pub open spec fn first_root(probes: Seq<DirProbe>) -> Option<Seq<char>>
    decreases probes.len(),
{
    if probes.len() == 0 {
        None
    } else {
        match probed_root(probes[0]) {
            Some(c) => Some(c),
            None => first_root(probes.drop_first()),
        }
    }
}

/// The project's root, given the probes of a start directory and each of its ancestors
/// in turn, nearest first: the first of them with the markers whose canonical path is
/// known.
pub fn infer_project_root_from(probes: &Vec<DirProbe>) -> (r: Option<String>)
    ensures
        match r {
            Some(c) => first_root(probes@) == Some(c@),
            None => first_root(probes@) is None,
        },
{
    let mut i: usize = 0;
    assert(probes@.skip(0) =~= probes@);
    while i < probes.len()
        invariant
            i <= probes@.len(),
            first_root(probes@) == first_root(probes@.skip(i as int)),
        decreases probes@.len() - i,
    {
        let p = &probes[i];
        assert(probes@.skip(i as int)[0] == probes@[i as int]);
        assert(probes@.skip(i as int).drop_first() =~= probes@.skip(i + 1));
        if p.has_workspace && p.has_contracts && p.has_docs {
            match &p.canonical {
                Some(c) => {
                    return Some(c.clone());
                },
                None => {},
            }
        }
        i = i + 1;
    }
    None
}

/// Splitting at a separator that follows a piece without one.
proof fn lemma_split_first(a: Seq<char>, c: char, b: Seq<char>)
    requires
        !a.contains(c),
    ensures
        split_on(a + seq![c] + b, c) == seq![a] + split_on(b, c),
{
    let s = a + seq![c] + b;
    lemma_index_past(a, c, b);
    assert(s.take(a.len() as int) =~= a);
    assert(s.skip(a.len() + 1int) =~= b);
}

/// Splitting text joined at a separator gives the pieces of each side.
proof fn lemma_split_join(a: Seq<char>, c: char, b: Seq<char>)
    ensures
        split_on(a + seq![c] + b, c) == split_on(a, c) + split_on(b, c),
    decreases a.len(),
{
    let k = index_of(a, c);
    lemma_index_of(a, c);
    if k >= a.len() {
        assert(!a.contains(c));
        lemma_split_first(a, c, b);
    } else {
        let a1 = a.take(k);
        let a2 = a.skip(k + 1);
        assert(!a1.contains(c)) by {
            if a1.contains(c) {
                let j = choose|j: int| 0 <= j < a1.len() && a1[j] == c;
                assert(a[j] == c);
            }
        }
        assert(a + seq![c] + b =~= a1 + seq![c] + (a2 + seq![c] + b));
        lemma_split_first(a1, c, a2 + seq![c] + b);
        lemma_split_join(a2, c, b);
        assert(split_on(a, c) == seq![a1] + split_on(a2, c));
        assert(seq![a1] + (split_on(a2, c) + split_on(b, c)) =~= seq![a1] + split_on(a2, c) + split_on(b, c));
    }
}

/// Text without the separator, put after other text, lengthens its last piece.
proof fn lemma_split_tail(a: Seq<char>, b: Seq<char>, c: char)
    requires
        !b.contains(c),
    ensures
        split_on(a, c).len() >= 1,
        split_on(a + b, c) == split_on(a, c).drop_last().push(split_on(a, c).last() + b),
    decreases a.len(),
{
    let k = index_of(a, c);
    lemma_index_of(a, c);
    if k >= a.len() {
        assert(!(a + b).contains(c)) by {
            if (a + b).contains(c) {
                let j = choose|j: int| 0 <= j < (a + b).len() && (a + b)[j] == c;
                if j < a.len() {
                    assert(a[j] == c);
                } else {
                    assert(b[j - a.len()] == c);
                }
            }
        }
        lemma_index_absent(a + b, c);
        assert(split_on(a, c) == seq![a]);
        assert(split_on(a + b, c) == seq![a + b]);
        assert(seq![a].drop_last().push(a + b) =~= seq![a + b]);
    } else {
        let a1 = a.take(k);
        let a2 = a.skip(k + 1);
        assert(!a1.contains(c)) by {
            if a1.contains(c) {
                let j = choose|j: int| 0 <= j < a1.len() && a1[j] == c;
                assert(a[j] == c);
            }
        }
        assert(a =~= a1 + seq![c] + a2);
        assert(a + b =~= a1 + seq![c] + (a2 + b));
        lemma_split_first(a1, c, a2 + b);
        lemma_split_first(a1, c, a2);
        lemma_split_tail(a2, b, c);
        let r = split_on(a2, c);
        assert((seq![a1] + r).drop_last() =~= seq![a1] + r.drop_last());
        assert((seq![a1] + r).last() == r.last());
        assert(seq![a1] + r.drop_last().push(r.last() + b) =~= (seq![a1] + r.drop_last()).push(r.last() + b));
    }
}

/// Joining the pieces of a split with its separator gives the text back.
proof fn lemma_join_split(s: Seq<char>, c: char)
    ensures
        join_with(split_on(s, c), seq![c]) == s,
    decreases s.len(),
{
    let k = index_of(s, c);
    lemma_index_of(s, c);
    if k < s.len() {
        let s1 = s.take(k);
        let s2 = s.skip(k + 1);
        lemma_join_split(s2, c);
        lemma_split_tail(s2, seq![], c);
        lemma_join_prepend(s1, split_on(s2, c), seq![c]);
        assert(s1 + seq![c] + s2 =~= s);
    }
}

proof fn lemma_trim_start_head(s: Seq<char>)
    ensures
        trim_start(s).len() == 0 || !is_ws(trim_start(s)[0]),
    decreases s.len(),
{
    if s.len() > 0 && is_ws(s[0]) {
        lemma_trim_start_head(s.drop_first());
    }
}

proof fn lemma_trim_end_shape(s: Seq<char>)
    ensures
        trim_end(s).len() <= s.len(),
        trim_end(s) == s.take(trim_end(s).len() as int),
        trim_end(s).len() == 0 || !is_ws(trim_end(s).last()),
    decreases s.len(),
{
    if s.len() > 0 && is_ws(s.last()) {
        lemma_trim_end_shape(s.drop_last());
        assert(s.drop_last().take(trim_end(s).len() as int) =~= s.take(trim_end(s).len() as int));
    } else {
        assert(s.take(s.len() as int) =~= s);
    }
}

/// Trimming trimmed text leaves it as it is.
proof fn lemma_trim_twice(x: Seq<char>)
    ensures
        trim(trim(x)) == trim(x),
{
    let ts = trim_start(x);
    let u = trim_end(ts);
    lemma_trim_start_head(x);
    lemma_trim_end_shape(ts);
    if u.len() > 0 {
        assert(u[0] == ts[0]);
        assert(trim_start(u) == u);
        assert(trim_end(u) == u);
    } else {
        assert(trim_start(u) == u);
        assert(trim_end(u) == u);
    }
}

/// Filtering keeps a sequence whose elements all pass.
proof fn lemma_filter_keeps_all<A>(s: Seq<A>, pred: spec_fn(A) -> bool)
    requires
        forall|i: int| 0 <= i < s.len() ==> pred(#[trigger] s[i]),
    ensures
        s.filter(pred) == s,
    decreases s.len(),
{
    reveal(Seq::filter);
    if s.len() > 0 {
        lemma_filter_keeps_all(s.drop_last(), pred);
        assert(s.drop_last().push(s.last()) =~= s);
    }
}

/// A piece of a path that stays in its components and is no step up.
pub open spec fn plain_piece(e: Seq<char>) -> bool {
    e.len() > 0 && e != "."@ && e != ".."@
}

proof fn lemma_no_slash(s: Seq<char>)
    requires
        forall|i: int| 0 <= i < s.len() ==> s[i] != '/',
    ensures
        split_on(s, '/') == seq![s],
{
    lemma_index_absent(s, '/');
}

/// Every piece of a valid screen path is plain.
#[verifier::spinoff_prover]
proof fn lemma_screen_path_pieces(t: Seq<char>)
    requires
        valid_screen_path(t),
        trim(t) == t,
    ensures
        forall|i: int| 0 <= i < split_on(t, '/').len() ==> plain_piece(#[trigger] split_on(t, '/')[i]),
{
    reveal_strlit("config/screens/");
    reveal_strlit(".screen.json");
    reveal_strlit("config");
    reveal_strlit("screens");
    reveal_strlit(".");
    reveal_strlit("..");
    let prefix = "config/screens/"@;
    let suffix = ".screen.json"@;
    let rest = t.skip(prefix.len() as int);
    let body = rest.take(t.len() - prefix.len() - suffix.len());
    assert(rest =~= body + suffix) by {
        assert(rest.subrange(rest.len() - suffix.len(), rest.len() as int) == suffix);
    }
    assert(t.subrange(0, prefix.len() as int) == prefix);
    let x = "screens"@ + seq!['/'] + (body + suffix);
    assert(t =~= "config"@ + seq!['/'] + x) by {
        assert(t =~= t.subrange(0, prefix.len() as int) + rest);
    }
    lemma_split_join("config"@, '/', "screens"@ + seq!['/'] + (body + suffix));
    lemma_split_join("screens"@, '/', body + suffix);
    lemma_no_slash("config"@);
    lemma_no_slash("screens"@);
    lemma_split_tail(body, suffix, '/');
    let segs = split_on(body, '/');
    let tail = segs.drop_last().push(segs.last() + suffix);
    assert(segments_ok(segs));
    let all = split_on(t, '/');
    assert(all =~= seq!["config"@, "screens"@] + tail);
    assert forall|i: int| 0 <= i < all.len() implies plain_piece(#[trigger] all[i]) by {
        if i >= 2 && i < all.len() - 1 {
            let e = segs[i - 2];
            assert(all[i] == e);
            assert(e.len() > 0 && segment_char(e[0]));
            assert(e != "."@) by {
                if e == "."@ {
                    assert(e[0] == '.');
                }
            }
            assert(e != ".."@) by {
                if e == ".."@ {
                    assert(e[0] == '.');
                }
            }
        } else if i == all.len() - 1 {
            assert(all[i] == segs.last() + suffix);
        }
    }
}

proof fn lemma_trimmed_screen_path(raw: Seq<char>)
    requires
        valid_screen_path(trim(raw)),
    ensures
        trim(trim(raw)) == trim(raw),
        trim(raw).len() > 0,
        trim(raw)[0] != '/',
        forall|i: int| 0 <= i < split_on(trim(raw), '/').len() ==> plain_piece(#[trigger] split_on(trim(raw), '/')[i]),
{
    reveal_strlit("config/screens/");
    let rel = trim(raw);
    lemma_trim_twice(raw);
    assert(rel.subrange(0, 15)[0] == "config/screens/"@[0]);
    lemma_screen_path_pieces(rel);
}

proof fn lemma_components_join(a: Seq<char>, b: Seq<char>)
    ensures
        path_components(a + seq!['/'] + b) == path_components(a) + path_components(b),
{
    lemma_split_join(a, '/', b);
    Seq::filter_distributes_over_add(
        split_on(a, '/'),
        split_on(b, '/'),
        |c: Seq<char>| c.len() > 0 && c != "."@,
    );
}

proof fn lemma_components_empty()
    ensures
        path_components(Seq::<char>::empty()) == Seq::<Seq<char>>::empty(),
{
    lemma_no_slash(Seq::<char>::empty());
    let keep = |c: Seq<char>| c.len() > 0 && c != "."@;
    let none = seq![Seq::<char>::empty()];
    assert(none.filter(keep) =~= Seq::<Seq<char>>::empty()) by {
        reveal(Seq::filter);
        assert(none.drop_last() =~= Seq::<Seq<char>>::empty());
        assert(Seq::<Seq<char>>::empty().filter(keep) =~= Seq::<Seq<char>>::empty());
        assert(!keep(none.last()));
    }
}

proof fn lemma_components_plain(rel: Seq<char>)
    requires
        forall|i: int| 0 <= i < split_on(rel, '/').len() ==> plain_piece(#[trigger] split_on(rel, '/')[i]),
    ensures
        path_components(rel) == split_on(rel, '/'),
{
    lemma_filter_keeps_all(split_on(rel, '/'), |c: Seq<char>| c.len() > 0 && c != "."@);
}

#[verifier::spinoff_prover]
proof fn lemma_joined_components(root: Seq<char>, rel: Seq<char>)
    requires
        root.len() > 0,
        rel.len() > 0,
        rel[0] != '/',
        forall|i: int| 0 <= i < split_on(rel, '/').len() ==> plain_piece(#[trigger] split_on(rel, '/')[i]),
    ensures
        path_components(joined_path(root, rel)) == path_components(root) + split_on(rel, '/'),
{
    reveal_strlit("/");
    lemma_components_plain(rel);
    if root.last() == '/' {
        let base = root.drop_last();
        assert(joined_path(root, rel) =~= base + seq!['/'] + rel);
        assert(root =~= base + seq!['/'] + Seq::<char>::empty());
        lemma_components_join(base, rel);
        lemma_components_join(base, Seq::<char>::empty());
        lemma_components_empty();
        assert(path_components(root) =~= path_components(base));
    } else {
        assert(joined_path(root, rel) =~= root + seq!['/'] + rel);
        lemma_components_join(root, rel);
    }
}

/// Picking the file the picker opened at gives back the initial path, trimmed: the path
/// of that file below an absolute project root is the path it was opened with.
#[verifier::spinoff_prover]
pub proof fn picking_the_initial_file_gives_its_path(root: Seq<char>, raw: Seq<char>)
    requires
        root.len() > 0,
        root[0] == '/',
        initial_picker_path(root, Some(raw)) is Some,
    ensures
        relative_screen_path(root, initial_picker_path(root, Some(raw))->0) == Ok::<Seq<char>, Seq<char>>(trim(raw)),
{
    reveal_strlit("/");
    reveal_strlit("..");
    let rel = trim(raw);
    lemma_trimmed_screen_path(raw);
    let pieces = split_on(rel, '/');
    lemma_joined_components(root, rel);
    let rc = path_components(root);
    let abs = joined_path(root, rel);
    let ac = path_components(abs);
    assert(abs[0] == '/');
    assert(ac.take(rc.len() as int) =~= rc);
    assert(ac.skip(rc.len() as int) =~= pieces);
    let up = |c: Seq<char>| c != ".."@;
    lemma_filter_keeps_all(pieces, up);
    lemma_join_split(rel, '/');
    assert("/"@ =~= seq!['/']);
}

} // verus!
