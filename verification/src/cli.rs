//! The command-line front end: positional arguments, the subcommands, and the
//! "group by extension" report.

use vstd::prelude::*;

use crate::text::{extension_chars, extension_of, file_name_chars, file_name_of, from_chars, to_chars};

verus! {

/// Positional arguments: the option word and the source path.
#[derive(Debug)]
pub struct Config {
    pub option: String,
    pub source: String,
}

impl Config {
    /// Reads `env[1]` as the option and `env[2]` as the source (`env[0]` is the
    /// program name).
    pub fn build(env: Vec<String>) -> (r: Config)
        requires
            env.len() >= 3,
        ensures
            r.option == env@[1],
            r.source == env@[2],
    {
        let option = env[1].clone();
        let source = env[2].clone();
        Config { option, source }
    }
}

/// Parsed command line.
#[derive(Debug)]
pub struct Cli {
    pub command: Commands,
}

/// The subcommands.
#[derive(Debug)]
pub enum Commands {
    /// Find and manage duplicate files.
    Duplicate { path: String, dry_run: bool },
    /// Find and manage unused files.
    Unused { path: String, age: u32, dry_run: bool },
}

/// The extension of a path for grouping (as written, not lower-cased).
pub open spec fn group_ext(path: Seq<char>) -> Option<Seq<char>> {
    extension_of(path)
}

/// The distinct extensions of `files`, in order of first appearance.
pub open spec fn ext_keys(files: Seq<Seq<char>>) -> Seq<Seq<char>>
    decreases files.len(),
{
    if files.len() == 0 {
        Seq::empty()
    } else {
        let keys = ext_keys(files.drop_last());
        match group_ext(files.last()) {
            Some(e) => if keys.contains(e) {
                keys
            } else {
                keys.push(e)
            },
            None => keys,
        }
    }
}

/// The files of `files` whose extension is `e`, in order.
pub open spec fn with_ext(files: Seq<Seq<char>>, e: Seq<char>) -> Seq<Seq<char>>
    decreases files.len(),
{
    if files.len() == 0 {
        Seq::empty()
    } else {
        let rest = with_ext(files.drop_last(), e);
        if group_ext(files.last()) == Some(e) {
            rest.push(files.last())
        } else {
            rest
        }
    }
}

/// The lines printed for one group: its extension, then its files as a tree.
pub open spec fn group_lines(e: Seq<char>, members: Seq<Seq<char>>) -> Seq<Seq<char>> {
    seq!["├── "@ + e] + Seq::new(
        members.len(),
        |k: int|
            "│   "@ + (if k == members.len() - 1 {
                "└── "@
            } else {
                "├── "@
            }) + file_name_of(members[k]),
    )
}

/// All lines of the report for `keys` (each with its members).
pub open spec fn tree_lines(files: Seq<Seq<char>>, keys: Seq<Seq<char>>) -> Seq<Seq<char>>
    decreases keys.len(),
{
    if keys.len() == 0 {
        Seq::empty()
    } else {
        tree_lines(files, keys.drop_last()) + group_lines(keys.last(), with_ext(files, keys.last()))
    }
}

/// The whole report printed for `group_by`: a header and the tree of files by
/// extension, or nothing unless grouping by "extension" is asked for.
pub open spec fn group_report(files: Seq<Seq<char>>, group_by: Seq<char>) -> Seq<Seq<char>> {
    if group_by == "extension"@ {
        seq!["File Tree by Extension:"@] + tree_lines(files, ext_keys(files))
    } else {
        Seq::empty()
    }
}

pub open spec fn views(v: Seq<String>) -> Seq<Seq<char>> {
    v.map_values(|s: String| s@)
}

/// Groups regular files by extension, in order of first appearance of each
/// extension; files without an extension are left out.
pub fn group_by_extension(files: &Vec<String>) -> (r: (Vec<String>, Vec<Vec<String>>))
    ensures
        views(r.0@) == ext_keys(views(files@)),
        r.1@.len() == r.0@.len(),
        forall|k: int| 0 <= k < r.1@.len() ==> views(#[trigger] r.1@[k]@) == with_ext(views(files@), r.0@[k]@),
{
    let mut keys: Vec<String> = Vec::new();
    let mut groups: Vec<Vec<String>> = Vec::new();
    let mut i: usize = 0;
    while i < files.len()
        invariant
            i <= files.len(),
            views(keys@) == ext_keys(views(files@.take(i as int))),
            groups@.len() == keys@.len(),
            forall|k: int|
                0 <= k < groups@.len() ==> views(#[trigger] groups@[k]@) == with_ext(
                    views(files@.take(i as int)),
                    keys@[k]@,
                ),
        decreases files.len() - i,
    {
        let ghost pre = views(files@.take(i as int));
        let ghost post = views(files@.take(i + 1));
        assert(post.drop_last() =~= pre);
        assert(post.last() == files@[i as int]@);
        let v = to_chars(files[i].as_str());
        let name = file_name_chars(&v);
        match extension_chars(&name) {
            None => {
                proof {
                    assert forall|k: int| 0 <= k < groups@.len() implies views(
                        #[trigger] groups@[k]@,
                    ) == with_ext(post, keys@[k]@) by {}
                }
            },
            Some(e) => {
                let ext = from_chars(&e);
                // find the group of this extension
                let mut k: usize = 0;
                let mut found = false;
                while k < keys.len()
                    invariant_except_break
                        !found,
                    invariant
                        k <= keys@.len(),
                        forall|j: int| 0 <= j < k ==> keys@[j]@ != ext@,
                    ensures
                        found ==> k < keys@.len() && keys@[k as int]@ == ext@,
                        !found ==> forall|j: int| 0 <= j < keys@.len() ==> keys@[j]@ != ext@,
                    decreases keys@.len() - k,
                {
                    if crate::text::str_eq(keys[k].as_str(), ext.as_str()) {
                        found = true;
                        break;
                    }
                    k += 1;
                }
                if found {
                    let ghost old_groups = groups@;
                    let mut members = clone_strings(&groups[k]);
                    members.push(files[i].clone());
                    groups.set(k, members);
                    proof {
                        assert(views(keys@).contains(ext@)) by {
                            assert(views(keys@)[k as int] == ext@);
                        }
                        assert forall|j: int| 0 <= j < groups@.len() implies views(
                            #[trigger] groups@[j]@,
                        ) == with_ext(post, keys@[j]@) by {
                            if j == k {
                                assert(views(groups@[j]@) =~= views(old_groups[j]@).push(files@[i as int]@));
                            } else {
                                assert(keys@[j]@ != ext@) by {
                                    lemma_ext_keys_distinct(pre);
                                    assert(views(keys@)[j] == keys@[j]@);
                                    assert(views(keys@)[k as int] == keys@[k as int]@);
                                }
                            }
                        }
                    }
                } else {
                    let ghost old_groups = groups@;
                    let ghost old_keys = keys@;
                    let mut members: Vec<String> = Vec::new();
                    members.push(files[i].clone());
                    keys.push(ext);
                    groups.push(members);
                    proof {
                        assert(!views(old_keys).contains(e@)) by {
                            if views(old_keys).contains(e@) {
                                let j = choose|j: int| 0 <= j < views(old_keys).len() && views(old_keys)[j] == e@;
                                assert(views(old_keys)[j] == old_keys[j]@);
                                assert(old_keys[j]@ == e@);
                                assert(ext@ == e@);
                            }
                        }
                        assert(views(keys@) =~= views(old_keys).push(e@));
                        assert forall|j: int| 0 <= j < groups@.len() implies views(
                            #[trigger] groups@[j]@,
                        ) == with_ext(post, keys@[j]@) by {
                            if j < old_groups.len() {
                                assert(groups@[j] == old_groups[j]);
                                assert(keys@[j] == old_keys[j]);
                            } else {
                                lemma_with_ext_absent(pre, e@);
                                assert(views(groups@[j]@) =~= seq![files@[i as int]@]);
                                assert(Seq::<Seq<char>>::empty().push(files@[i as int]@) =~= seq![files@[i as int]@]);
                            }
                        }
                    }
                }
            },
        }
        i += 1;
    }
    assert(files@.take(files.len() as int) =~= files@);
    (keys, groups)
}

/// The extensions listed by `ext_keys` are distinct.
proof fn lemma_ext_keys_distinct(files: Seq<Seq<char>>)
    ensures
        ext_keys(files).no_duplicates(),
    decreases files.len(),
{
    if files.len() > 0 {
        lemma_ext_keys_distinct(files.drop_last());
        let keys = ext_keys(files.drop_last());
        match group_ext(files.last()) {
            Some(e) => {
                if !keys.contains(e) {
                    assert forall|a: int, b: int|
                        0 <= a < keys.push(e).len() && 0 <= b < keys.push(e).len() && a != b implies keys.push(e)[a]
                        != keys.push(e)[b] by {
                        if a < keys.len() && b < keys.len() {
                        } else if a < keys.len() {
                            assert(keys[a] != e);
                        } else {
                            assert(keys[b] != e);
                        }
                    }
                }
            },
            None => {},
        }
    }
}

/// No file of `files` has an extension that is not among its keys.
proof fn lemma_with_ext_absent(files: Seq<Seq<char>>, e: Seq<char>)
    requires
        !ext_keys(files).contains(e),
    ensures
        with_ext(files, e) == Seq::<Seq<char>>::empty(),
    decreases files.len(),
{
    if files.len() > 0 {
        let keys = ext_keys(files.drop_last());
        assert(!keys.contains(e)) by {
            if keys.contains(e) {
                let j = choose|j: int| 0 <= j < keys.len() && keys[j] == e;
                match group_ext(files.last()) {
                    Some(x) => {
                        if !keys.contains(x) {
                            assert(keys.push(x)[j] == e);
                        }
                    },
                    None => {},
                }
            }
        }
        lemma_with_ext_absent(files.drop_last(), e);
        if group_ext(files.last()) == Some(e) {
            assert(ext_keys(files) == keys.push(e));
            assert(ext_keys(files)[keys.len() as int] == e);
        }
    }
}

/// The group of an extension holds, in order, exactly the files whose path
/// has that extension (as written).
pub proof fn law_extension_group_members(files: Seq<Seq<char>>, e: Seq<char>)
    ensures
        with_ext(files, e) == files.filter(|p: Seq<char>| extension_of(p) == Some(e)),
    decreases files.len(),
{
    reveal(Seq::filter);
    if files.len() > 0 {
        law_extension_group_members(files.drop_last(), e);
    }
}

/// The groups are headed by distinct extensions, and every extension that a
/// file has heads a group.
pub proof fn law_extension_groups_cover(files: Seq<Seq<char>>)
    ensures
        ext_keys(files).no_duplicates(),
        forall|i: int|
            0 <= i < files.len() && (#[trigger] extension_of(files[i])) is Some ==> ext_keys(files).contains(
                extension_of(files[i])->0,
            ),
    decreases files.len(),
{
    lemma_ext_keys_distinct(files);
    if files.len() > 0 {
        let rest = files.drop_last();
        law_extension_groups_cover(rest);
        let keys = ext_keys(rest);
        assert forall|i: int|
            0 <= i < files.len() && (#[trigger] extension_of(files[i])) is Some implies ext_keys(files).contains(
                extension_of(files[i])->0,
            ) by {
            if i < rest.len() {
                assert(rest[i] == files[i]);
                let j = choose|j: int| 0 <= j < keys.len() && keys[j] == extension_of(rest[i])->0;
                match group_ext(files.last()) {
                    Some(x) => {
                        if !keys.contains(x) {
                            assert(keys.push(x)[j] == keys[j]);
                        }
                    },
                    None => {},
                }
            } else {
                let x = extension_of(files[i])->0;
                if !keys.contains(x) {
                    assert(keys.push(x)[keys.len() as int] == x);
                }
            }
        }
    }
}

/// A copy of a list of strings.
pub fn clone_strings(v: &Vec<String>) -> (r: Vec<String>)
    ensures
        r@ == v@,
{
    let mut r: Vec<String> = Vec::new();
    let mut i: usize = 0;
    while i < v.len()
        invariant
            i <= v.len(),
            r@ == v@.take(i as int),
        decreases v.len() - i,
    {
        r.push(v[i].clone());
        assert(v@.take(i as int).push(v@[i as int]) =~= v@.take(i + 1));
        i += 1;
    }
    assert(v@.take(v.len() as int) =~= v@);
    r
}


/// The report for `group_by` over `files` (the regular files of a scan): one
/// line per printed row.
pub fn get_group(files: &Vec<String>, group_by: &str) -> (r: Vec<String>)
    ensures
        views(r@) == group_report(views(files@), group_by@),
{
    let mut lines: Vec<String> = Vec::new();
    proof {
        reveal_strlit("extension");
    }
    if !crate::text::str_eq(group_by, "extension") {
        assert(views(lines@) =~= group_report(views(files@), group_by@));
        return lines;
    }
    let (keys, groups) = group_by_extension(files);
    let ghost fs = views(files@);
    let ghost ks = views(keys@);
    lines.push(String::from_str("File Tree by Extension:"));
    assert(views(lines@) =~= seq!["File Tree by Extension:"@] + tree_lines(fs, ks.take(0)));
    let mut g: usize = 0;
    while g < keys.len()
        invariant
            g <= keys@.len() == groups@.len(),
            fs == views(files@),
            ks == views(keys@),
            ks == ext_keys(fs),
            forall|k: int| 0 <= k < groups@.len() ==> views(#[trigger] groups@[k]@) == with_ext(fs, keys@[k]@),
            views(lines@) == seq!["File Tree by Extension:"@] + tree_lines(fs, ks.take(g as int)),
        decreases keys@.len() - g,
    {
        let ghost before = views(lines@);
        let head = String::from_str("├── ").concat(keys[g].as_str());
        lines.push(head);
        let members = &groups[g];
        let ghost ms = views(members@);
        assert(ms == with_ext(fs, keys@[g as int]@));
        let mut k: usize = 0;
        while k < members.len()
            invariant
                k <= members@.len(),
                ms == views(members@),
                views(lines@) == before + seq!["├── "@ + keys@[g as int]@] + Seq::new(
                    k as nat,
                    |j: int|
                        "│   "@ + (if j == ms.len() - 1 {
                            "└── "@
                        } else {
                            "├── "@
                        }) + file_name_of(ms[j]),
                ),
            decreases members@.len() - k,
        {
            let ghost prev = views(lines@);
            let branch = if k + 1 == members.len() {
                "└── "
            } else {
                "├── "
            };
            let pv = to_chars(members[k].as_str());
            let name = from_chars(&file_name_chars(&pv));
            let line = String::from_str("│   ").concat(branch).concat(name.as_str());
            lines.push(line);
            proof {
                let f = |j: int|
                    "│   "@ + (if j == ms.len() - 1 {
                        "└── "@
                    } else {
                        "├── "@
                    }) + file_name_of(ms[j]);
                assert(views(lines@) =~= prev.push(line@));
                assert(Seq::new((k + 1) as nat, f) =~= Seq::new(k as nat, f).push(f(k as int)));
                assert(ms[k as int] == members@[k as int]@);
                assert(views(lines@) =~= before + seq!["├── "@ + keys@[g as int]@] + Seq::new((k + 1) as nat, f));
            }
            k += 1;
        }
        proof {
            assert(ks.take(g + 1).drop_last() =~= ks.take(g as int));
            assert(ks.take(g + 1).last() == keys@[g as int]@);
            assert(views(lines@) =~= before + group_lines(keys@[g as int]@, ms));
            assert(tree_lines(fs, ks.take(g + 1)) == tree_lines(fs, ks.take(g as int)) + group_lines(
                keys@[g as int]@,
                with_ext(fs, keys@[g as int]@),
            ));
        }
        g += 1;
    }
    assert(ks.take(keys.len() as int) =~= ks);
    lines
}

} // verus!
