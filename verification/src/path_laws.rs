//! What holds of paths, whatever their names are.

use vstd::prelude::*;

use crate::app;
use crate::path;
use crate::path::PathModel;
use crate::rule_laws;

verus! {

/// What is put behind a path lies below it, and is found again there. A path that is tied to
/// the root of the file system stays what it is.
pub proof fn joined_path_lies_below(base: PathModel, rest: PathModel)
    ensures
        !rest.absolute ==> base.join(rest).starts_with(base) && base.join(rest).below(base) == rest,
        rest.absolute ==> base.join(rest) == rest,
{
    if !rest.absolute {
        let all = base.join(rest);
        assert(base.parts =~= all.parts.subrange(0, base.parts.len() as int));
        assert(all.below(base).parts =~= rest.parts);
    }
}

/// A path that lies below another one is that one with the rest behind it.
pub proof fn path_is_its_base_and_the_rest(path: PathModel, base: PathModel)
    requires
        path.starts_with(base),
        path.absolute == base.absolute,
    ensures
        base.join(path.below(base)) == path,
        path.below(base).parts.len() + base.parts.len() == path.parts.len(),
        forall|i: int| 0 <= i < base.parts.len() ==> #[trigger] path.parts[i] == base.parts[i],
        forall|i: int|
            0 <= i < path.below(base).parts.len() ==> #[trigger] path.below(base).parts[i]
                == path.parts[base.parts.len() + i],
{
    assert(base.parts + path.parts.skip(base.parts.len() as int) =~= path.parts);
    assert(base.parts =~= path.parts.subrange(0, base.parts.len() as int));
}

/// A path lies below another one only if it has all of that one's names in front.
pub proof fn other_names_lie_elsewhere(path: PathModel, base: PathModel, i: int)
    requires
        0 <= i < base.parts.len(),
        i >= path.parts.len() || path.parts[i] != base.parts[i],
    ensures
        !path.starts_with(base),
{
    if base.parts.is_prefix_of(path.parts) {
        assert(path.parts.subrange(0, base.parts.len() as int)[i] == path.parts[i]);
    }
}

/// The directory around an entry of a directory is that directory, and the entry lies in it.
pub proof fn child_lies_in_its_directory(dir: PathModel, name: Seq<u8>)
    ensures
        dir.child(name).parent() == Some(dir),
        dir.child(name).starts_with(dir),
        dir.child(name).parts == dir.parts + seq![name],
        dir.child(name).absolute == dir.absolute,
        dir.parts.len() == 0 ==> dir.parent() is None,
{
    assert(dir.child(name).parts.drop_last() =~= dir.parts);
    assert(dir.child(name).parts =~= dir.parts + seq![name]);
    assert(dir.parts =~= dir.child(name).parts.subrange(0, dir.parts.len() as int));
}

/// The bytes of a text and another one behind it are those of the first and behind them those
/// of the second.
pub proof fn text_bytes_follow_each_other(a: Seq<char>, b: Seq<char>)
    ensures
        vstd::utf8::encode_utf8(a + b) == vstd::utf8::encode_utf8(a) + vstd::utf8::encode_utf8(b),
    decreases a.len(),
{
    if a.len() == 0 {
        assert(a + b =~= b);
        assert(vstd::utf8::encode_utf8(a) + vstd::utf8::encode_utf8(b) =~= vstd::utf8::encode_utf8(
            b,
        ));
    } else {
        let rest = a.drop_first();
        text_bytes_follow_each_other(rest, b);
        assert((a + b).drop_first() =~= rest + b);
        assert((a + b)[0] == a[0]);
        assert(vstd::utf8::encode_utf8(a + b) =~= vstd::utf8::encode_utf8(a)
            + vstd::utf8::encode_utf8(b));
    }
}

proof fn lemma_slash_byte()
    ensures
        vstd::utf8::encode_utf8(seq!['/']) == seq![47u8],
{
    vstd::utf8::is_ascii_chars_encode_utf8(seq!['/']);
    assert(seq!['/'][0] == '/');
    assert(vstd::utf8::encode_utf8(seq!['/']) =~= seq![47u8]);
}

proof fn lemma_joined_bytes(names: Seq<Seq<char>>)
    ensures
        path::join_bytes(rule_laws::name_bytes(names)) == vstd::utf8::encode_utf8(
            rule_laws::slashed(names),
        ),
    decreases names.len(),
{
    let parts = rule_laws::name_bytes(names);
    if names.len() == 1 {
        assert(parts[0] == vstd::utf8::encode_utf8(names[0]));
    } else if names.len() > 1 {
        let front = names.drop_last();
        let a = rule_laws::slashed(front);
        let b = names.last();
        lemma_joined_bytes(front);
        lemma_slash_byte();
        assert(parts.drop_last() =~= rule_laws::name_bytes(front));
        assert(parts.last() == vstd::utf8::encode_utf8(b));
        assert(rule_laws::slashed(names) =~= (a + seq!['/']) + b);
        text_bytes_follow_each_other(a + seq!['/'], b);
        text_bytes_follow_each_other(a, seq!['/']);
        assert(path::join_bytes(parts) =~= vstd::utf8::encode_utf8(rule_laws::slashed(names)));
    }
}

/// A path is shown as its names with a slash between them, and one in front where it is tied
/// to the root of the file system.
pub proof fn path_is_shown_by_its_names(names: Seq<Seq<char>>)
    ensures
        (PathModel { absolute: false, parts: rule_laws::name_bytes(names) }).text()
            == rule_laws::slashed(names),
        (PathModel { absolute: true, parts: rule_laws::name_bytes(names) }).text() == seq!['/']
            + rule_laws::slashed(names),
{
    let shown = rule_laws::slashed(names);
    lemma_joined_bytes(names);
    lemma_slash_byte();
    text_bytes_follow_each_other(seq!['/'], shown);
    vstd::utf8::encode_utf8_valid_utf8(shown);
    vstd::utf8::encode_utf8_decode_utf8(shown);
    vstd::utf8::encode_utf8_valid_utf8(seq!['/'] + shown);
    vstd::utf8::encode_utf8_decode_utf8(seq!['/'] + shown);
}

/// The parts of a path are its names; one that is tied to the root of the file system has a
/// slash as a part in front of them.
pub proof fn parts_are_the_names(names: Seq<Seq<char>>)
    ensures
        (PathModel { absolute: false, parts: rule_laws::name_bytes(names) }).part_texts() == names,
        (PathModel { absolute: true, parts: rule_laws::name_bytes(names) }).part_texts() == seq![
            seq!['/'],
        ] + names,
{
    let parts = rule_laws::name_bytes(names);
    let texts = parts.map_values(|p: Seq<u8>| path::lossy(p));
    assert forall|i: int| 0 <= i < names.len() implies #[trigger] texts[i] == names[i] by {
        assert(parts[i] == vstd::utf8::encode_utf8(names[i]));
        valid_names_are_shown_unchanged(names[i]);
    }
    assert(texts =~= names);
}

/// In messages and titles a path below the root is shown by its names below the root.
pub proof fn shown_path_starts_at_the_root(root: PathModel, names: Seq<Seq<char>>)
    ensures
        app::shown_path(
            root,
            PathModel {
                absolute: root.absolute,
                parts: root.parts + rule_laws::name_bytes(names),
            },
        ) == rule_laws::slashed(names),
        forall|path: PathModel|
            !path.starts_with(root) ==> #[trigger] app::shown_path(root, path) == path.text(),
{
    let rest = PathModel { absolute: false, parts: rule_laws::name_bytes(names) };
    let path = PathModel {
        absolute: root.absolute,
        parts: root.parts + rule_laws::name_bytes(names),
    };
    joined_path_lies_below(root, rest);
    assert(root.join(rest) == path);
    path_is_shown_by_its_names(names);
}

/// A directory covers itself and what lies below it; anything else covers itself alone.
pub proof fn directories_cover_their_contents(base: PathModel, rest: PathModel, other: PathModel)
    requires
        !rest.absolute,
    ensures
        app::covers(base, base.join(rest), true),
        app::covers(base, base, true) && app::covers(base, base, false),
        app::covers(base, other, false) <==> other == base,
        app::covers(base, other, true) && other.absolute == base.absolute
            ==> other == base.join(other.below(base)),
        rest.parts.len() > 0 ==> !app::covers(base, base.join(rest), false),
{
    joined_path_lies_below(base, rest);
    assert(base.parts =~= base.parts.subrange(0, base.parts.len() as int));
    if app::covers(base, other, true) && other.absolute == base.absolute {
        path_is_its_base_and_the_rest(other, base);
    }
    assert(base.join(rest).parts.len() == base.parts.len() + rest.parts.len());
}

/// Names that are valid text are shown as that text.
pub proof fn valid_names_are_shown_unchanged(name: Seq<char>)
    ensures
        path::lossy(vstd::utf8::encode_utf8(name)) == name,
{
    vstd::utf8::encode_utf8_valid_utf8(name);
    vstd::utf8::encode_utf8_decode_utf8(name);
}

} // verus!
