//! File paths as texts, with `/` between their components.
use crate::text::{
    cat2, cat3, ends_with, has_prefix, has_suffix, join, law_parts_agree, lemma_filter_all,
    lemma_join_split, lemma_split_extend, lemma_split_pieces, lemma_split_single, split, split_text,
    starts_with, texts,
};
use vstd::prelude::*;
use vstd::string::*;

verus! {

broadcast use vstd::string::group_string_axioms;

/// The path that `rel` names below `base`. An absolute `rel` stands for itself.
pub open spec fn joined(base: Seq<char>, rel: Seq<char>) -> Seq<char> {
    if has_prefix(rel, "/"@) {
        rel
    } else if base.len() == 0 || has_suffix(base, "/"@) {
        base + rel
    } else {
        base + "/"@ + rel
    }
}

/// A component that names something: neither empty nor the current directory.
pub open spec fn is_component(c: Seq<char>) -> bool {
    c.len() > 0 && c != "."@
}

/// The last component of a path, where it names a file or a directory below another.
pub open spec fn file_name(path: Seq<char>) -> Option<Seq<char>> {
    let components = crate::text::split(path, '/').filter(|c: Seq<char>| is_component(c));
    if components.len() == 0 || components.last() == ".."@ {
        None
    } else {
        Some(components.last())
    }
}

/// What follows the last dot of a name, where something precedes that dot.
pub open spec fn name_extension(name: Seq<char>) -> Option<Seq<char>> {
    let pieces = crate::text::split(name, '.');
    if pieces.len() < 2 || (pieces.len() == 2 && pieces[0].len() == 0) {
        None
    } else {
        Some(pieces.last())
    }
}

/// The extension of the file that a path names.
pub open spec fn extension(path: Seq<char>) -> Option<Seq<char>> {
    match file_name(path) {
        Some(name) => name_extension(name),
        None => None,
    }
}

/// The path that `rel` names below `base`.
pub fn join_path(base: &str, rel: &str) -> (r: String)
    ensures
        r@ == joined(base@, rel@),
{
    if starts_with(rel, "/") {
        rel.to_owned()
    } else if base.is_empty() || ends_with(base, "/") {
        cat2(base, rel)
    } else {
        cat3(base, "/", rel)
    }
}

/// The extension of the file that a path names.
pub fn path_extension(path: &str) -> (r: Option<String>)
    ensures
        match r {
            Some(e) => extension(path@) == Some(e@),
            None => extension(path@) is None,
        },
{
    let parts = split_text(path, '/');
    let ghost all = crate::text::split(path@, '/');
    let ghost keep = |c: Seq<char>| is_component(c);
    let mut name: Option<String> = None;
    let mut i: usize = 0;
    assert(all.take(0) =~= Seq::<Seq<char>>::empty());
    reveal(Seq::filter);
    while i < parts.len()
        invariant
            0 <= i <= parts@.len(),
            texts(parts@) == all,
            keep == (|c: Seq<char>| is_component(c)),
            match name {
                Some(n) => all.take(i as int).filter(keep).len() > 0 && n@ == all.take(i as int).filter(
                    keep,
                ).last(),
                None => all.take(i as int).filter(keep).len() == 0,
            },
        decreases parts@.len() - i,
    {
        assert(all.take(i + 1).drop_last() =~= all.take(i as int));
        assert(all[i as int] == parts@[i as int]@);
        reveal(Seq::filter);
        if !parts[i].as_str().is_empty() && !crate::text::same_text(parts[i].as_str(), ".") {
            name = Some(parts[i].clone());
        }
        i = i + 1;
    }
    assert(all.take(all.len() as int) =~= all);
    match name {
        None => None,
        Some(name) => {
            if crate::text::same_text(name.as_str(), "..") {
                return None;
            }
            let pieces = split_text(name.as_str(), '.');
            let ghost words = crate::text::split(name@, '.');
            assert(pieces@.len() == words.len());
            if pieces.len() < 2 {
                return None;
            }
            assert(words[0] == pieces@[0]@);
            assert(words.last() == pieces@.last()@);
            if pieces.len() == 2 && pieces[0].as_str().is_empty() {
                return None;
            }
            Some(pieces[pieces.len() - 1].clone())
        },
    }
}

/// A name below a directory stands behind one slash, an absolute path stands for itself.
pub proof fn law_names_stand_below_directories(base: Seq<char>, rel: Seq<char>)
    ensures
        rel.len() > 0 && rel[0] == '/' ==> joined(base, rel) == rel,
        !(rel.len() > 0 && rel[0] == '/') && base.len() > 0 && base.last() != '/' ==> joined(base, rel)
            == base + seq!['/'] + rel,
        !(rel.len() > 0 && rel[0] == '/') && (base.len() == 0 || base.last() == '/') ==> joined(base, rel)
            == base + rel,
{
    reveal_strlit("/");
    law_parts_agree(rel, "/"@);
    law_parts_agree(base, "/"@);
    assert("/"@ =~= seq!['/']);
    if rel.len() > 0 && rel[0] != '/' {
        assert("/"@[0] == '/');
        assert(!has_prefix(rel, "/"@));
    }
    if base.len() > 0 {
        assert("/"@[0] == '/');
    }
}

/// The extension of a file is what follows the last dot of its name; where nothing stands
/// before that dot, or there is none, the file has no extension.
pub proof fn law_extension_follows_last_dot(dir: Seq<char>, stem: Seq<char>, ext: Seq<char>)
    requires
        stem.len() > 0,
        !stem.contains('/'),
        !ext.contains('/'),
        !ext.contains('.'),
        stem != seq!['.'] || ext.len() > 0,
    ensures
        extension(dir + seq!['/'] + stem + seq!['.'] + ext) == Some(ext),
        extension(stem + seq!['.'] + ext) == Some(ext),
        !stem.contains('.') ==> extension(stem) is None,
        ext.len() > 0 ==> extension(seq!['.'] + ext) is None,
{
    reveal_strlit(".");
    reveal_strlit("..");
    let name = stem + seq!['.'] + ext;
    assert forall|i: int| 0 <= i < name.len() implies name[i] != '/' by {
        if i < stem.len() {
            assert(stem[i] != '/');
        } else if i > stem.len() {
            assert(ext[i - stem.len() - 1] != '/');
        }
    }
    lemma_split_extend(stem, ext, '.');
    lemma_split_pieces(stem, '.');
    assert(split(name, '.') == split(stem, '.').push(ext));
    assert(split(name, '.').last() == ext);
    assert(split(stem, '.').len() == 1 ==> split(stem, '.')[0].len() > 0) by {
        if split(stem, '.').len() == 1 {
            lemma_join_split(stem, '.');
            assert(join(split(stem, '.'), seq!['.']) == split(stem, '.')[0]);
        }
    }
    assert(name_extension(name) == Some(ext));
    assert(is_component(name)) by {
        if name == "."@ {
            assert(name.len() == 1);
        }
    }
    assert(name != ".."@) by {
        if name == ".."@ {
            assert(name.len() == 2);
            assert(stem.len() == 1 && stem[0] == name[0]);
            assert(stem =~= seq!['.']);
        }
    }
    lemma_last_component(dir, name);
    assert(dir + seq!['/'] + name =~= dir + seq!['/'] + stem + seq!['.'] + ext);
    lemma_only_component(name);
    if !stem.contains('.') {
        lemma_split_single(stem, '.');
        assert(stem != "."@ && stem != ".."@) by {
            if stem == "."@ || stem == ".."@ {
                assert(stem[0] == '.');
            }
        }
        lemma_only_component(stem);
    }
    if ext.len() > 0 {
        let hidden = seq!['.'] + ext;
        assert forall|i: int| 0 <= i < hidden.len() implies hidden[i] != '/' by {
            if i > 0 {
                assert(ext[i - 1] != '/');
            }
        }
        assert(hidden != "."@ && hidden != ".."@) by {
            if hidden == "."@ {
                assert(hidden.len() == 1);
            }
            if hidden == ".."@ {
                assert(hidden[1] == '.');
                assert(ext[0] == '.');
            }
        }
        lemma_only_component(hidden);
        lemma_split_single(Seq::<char>::empty(), '.');
        lemma_split_extend(Seq::<char>::empty(), ext, '.');
        assert(hidden =~= Seq::<char>::empty() + seq!['.'] + ext);
    }
}

proof fn lemma_last_component(dir: Seq<char>, name: Seq<char>)
    requires
        !name.contains('/'),
        is_component(name),
        name != ".."@,
    ensures
        file_name(dir + seq!['/'] + name) == Some(name),
{
    let test = |c: Seq<char>| is_component(c);
    lemma_split_extend(dir, name, '/');
    reveal(Seq::filter);
    let pieces = split(dir, '/').push(name);
    assert(pieces.drop_last() =~= split(dir, '/'));
    assert(pieces.filter(test) == split(dir, '/').filter(test).push(name));
}

proof fn lemma_only_component(name: Seq<char>)
    requires
        !name.contains('/'),
        is_component(name),
        name != ".."@,
    ensures
        file_name(name) == Some(name),
{
    let test = |c: Seq<char>| is_component(c);
    lemma_split_single(name, '/');
    lemma_filter_all(seq![name], test);
}

/// Slashes and single dots behind a path do not count; a path that ends in two dots, or that
/// has no component, names no file.
pub proof fn law_marks_behind_a_path_do_not_count(path: Seq<char>)
    ensures
        extension(path + seq!['/']) == extension(path),
        extension(path + seq!['/', '.']) == extension(path),
        extension(path + seq!['/', '.', '.']) is None,
        extension(Seq::empty()) is None,
        extension(seq!['/']) is None,
        file_name(path + seq!['/']) == file_name(path),
        file_name(path + seq!['/', '.']) == file_name(path),
        file_name(path + seq!['/', '.', '.']) is None,
        file_name(Seq::empty()) is None,
{
    reveal_strlit(".");
    reveal_strlit("..");
    reveal(Seq::filter);
    let test = |c: Seq<char>| is_component(c);
    let nothing = Seq::<char>::empty();
    let (here, above) = (seq!['.'], seq!['.', '.']);
    let pieces = split(path, '/');
    assert("."@ =~= here);
    assert(".."@ =~= above);
    lemma_split_extend(path, nothing, '/');
    lemma_split_extend(path, here, '/');
    lemma_split_extend(path, above, '/');
    assert(path + seq!['/'] + nothing =~= path + seq!['/']);
    assert(path + seq!['/'] + here =~= path + seq!['/', '.']);
    assert(path + seq!['/'] + above =~= path + seq!['/', '.', '.']);
    assert(pieces.push(nothing).drop_last() =~= pieces);
    assert(pieces.push(here).drop_last() =~= pieces);
    assert(pieces.push(above).drop_last() =~= pieces);
    assert(pieces.push(nothing).filter(test) == pieces.filter(test));
    assert(pieces.push(here).filter(test) == pieces.filter(test));
    assert(above != here) by {
        assert(above.len() != here.len());
    }
    assert(pieces.push(above).filter(test) == pieces.filter(test).push(above));
    lemma_split_single(nothing, '/');
    lemma_split_extend(nothing, nothing, '/');
    assert(nothing + seq!['/'] + nothing =~= seq!['/']);
    let one = seq![nothing];
    assert(one.drop_last() =~= Seq::<Seq<char>>::empty());
    assert(one.drop_last().filter(test) =~= Seq::<Seq<char>>::empty());
    assert(one.filter(test) =~= Seq::<Seq<char>>::empty());
    assert(one.push(nothing).drop_last() =~= one);
    assert(one.push(nothing).filter(test) =~= Seq::<Seq<char>>::empty());
}

} // verus!
