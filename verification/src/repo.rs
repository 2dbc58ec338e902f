//! The alias repository: the compute half of each read-modify-write cycle
//! over the backing file. Every operation takes the current file content,
//! applies one change to the parsed collection, and returns the full new
//! content; reading and writing the file itself is the caller's concern.

use vstd::prelude::*;

use crate::grammar::{
    serialize_aliases, spec_parse, spec_serialize, views_of, parse_aliases_from_content,
};
use crate::{Alias, AliasView, AppError};

verus! {

/// Whether some record in `c` has name `name`.
pub open spec fn has_name(c: Seq<AliasView>, name: Seq<char>) -> bool {
    exists|i: int| 0 <= i < c.len() && (#[trigger] c[i]).name == name
}

/// No two records of `c` share a name.
pub open spec fn unique_names(c: Seq<AliasView>) -> bool {
    forall|i: int, j: int|
        0 <= i < j < c.len() ==> (#[trigger] c[i]).name != (#[trigger] c[j]).name
}

/// `c` with every record named `name` removed.
pub open spec fn spec_remove(c: Seq<AliasView>, name: Seq<char>) -> Seq<AliasView>
    decreases c.len(),
{
    if c.len() == 0 {
        Seq::empty()
    } else if c[0].name == name {
        spec_remove(c.drop_first(), name)
    } else {
        seq![c[0]] + spec_remove(c.drop_first(), name)
    }
}

/// One record with its command replaced where its name matches.
pub open spec fn override_command(r: AliasView, name: Seq<char>, command: Seq<char>) -> AliasView {
    if r.name == name {
        AliasView { name: r.name, command }
    } else {
        r
    }
}

/// Every record of `c` named `name` with its command replaced by `command`;
/// all positions and names kept.
pub open spec fn spec_replace(c: Seq<AliasView>, name: Seq<char>, command: Seq<char>) -> Seq<
    AliasView,
> {
    Seq::new(c.len(), |k: int| override_command(c[k], name, command))
}

/// One imported record reconciled against the current collection: a name
/// collision keeps its position and takes the imported command; a new name
/// is appended at the end.
pub open spec fn merge_one(cur: Seq<AliasView>, a: AliasView) -> Seq<AliasView> {
    if has_name(cur, a.name) {
        spec_replace(cur, a.name, a.command)
    } else {
        cur.push(a)
    }
}

/// The whole import-merge: imported records reconciled in their original
/// order; imported values win on collision, local-only records stay put.
pub open spec fn spec_merge(cur: Seq<AliasView>, imp: Seq<AliasView>) -> Seq<AliasView>
    decreases imp.len(),
{
    if imp.len() == 0 {
        cur
    } else {
        spec_merge(merge_one(cur, imp[0]), imp.drop_first())
    }
}

/// Add one alias: fails with `DuplicateName` (and the file is left as it
/// was, since no content is returned) exactly when the name is already
/// present; otherwise the new record is appended at the end and the full
/// new file content is returned.
pub fn add_alias(content: &str, name: String, command: String) -> (r: Result<String, AppError>)
    ensures
        match r {
            Ok(out) => !has_name(spec_parse(content@), name@) && out@ == spec_serialize(
                spec_parse(content@).push(AliasView { name: name@, command: command@ }),
            ),
            Err(e) => e == AppError::DuplicateName && has_name(spec_parse(content@), name@),
        },
{
    let ghost c = spec_parse(content@);
    let ghost nv = name@;
    let ghost cv = command@;
    let mut aliases = parse_aliases_from_content(content);
    let mut i: usize = 0;
    while i < aliases.len()
        invariant
            i <= aliases@.len(),
            views_of(aliases@) == c,
            c == spec_parse(content@),
            nv == name@,
            forall|j: int| 0 <= j < i ==> (#[trigger] c[j]).name != nv,
        decreases aliases@.len() - i,
    {
        if aliases[i].name == name {
            proof {
                assert(c[i as int] == aliases@[i as int]@);
                assert(c[i as int].name == nv);
                assert(has_name(c, nv));
            }
            return Err(AppError::DuplicateName);
        }
        proof {
            assert(c[i as int] == aliases@[i as int]@);
            assert(c[i as int].name != nv);
        }
        i += 1;
    }
    proof {
        assert(!has_name(c, nv));
    }
    aliases.push(Alias { name, command });
    proof {
        assert(views_of(aliases@) =~= c.push(AliasView { name: nv, command: cv }));
    }
    Ok(serialize_aliases(&aliases))
}

/// Delete an alias: every record with the given name is dropped (absence is
/// not an error) and the full new file content is returned.
pub fn delete_alias(content: &str, name: String) -> (r: String)
    ensures
        r@ == spec_serialize(spec_remove(spec_parse(content@), name@)),
{
    let ghost c = spec_parse(content@);
    let aliases = parse_aliases_from_content(content);
    let mut kept: Vec<Alias> = Vec::new();
    let mut i: usize = 0;
    proof {
        assert(c.subrange(0, 0) =~= Seq::<AliasView>::empty());
        assert(views_of(kept@) =~= spec_remove(c.subrange(0, 0), name@));
    }
    while i < aliases.len()
        invariant
            i <= aliases@.len(),
            views_of(aliases@) == c,
            views_of(kept@) == spec_remove(c.subrange(0, i as int), name@),
        decreases aliases@.len() - i,
    {
        proof {
            assert(c[i as int] == aliases@[i as int]@);
        }
        let ghost kept_old = kept@;
        if !(aliases[i].name == name) {
            let nm = aliases[i].name.clone();
            let cmd = aliases[i].command.clone();
            kept.push(Alias { name: nm, command: cmd });
            proof {
                assert(views_of(kept@) =~= views_of(kept_old).push(c[i as int]));
            }
        }
        proof {
            lemma_remove_push(c.subrange(0, i as int), c[i as int], name@);
            assert(c.subrange(0, i as int).push(c[i as int]) =~= c.subrange(0, i as int + 1));
            assert(views_of(kept@) =~= spec_remove(c.subrange(0, i as int + 1), name@));
        }
        i += 1;
    }
    proof {
        assert(c.subrange(0, c.len() as int) =~= c);
    }
    serialize_aliases(&kept)
}

proof fn lemma_remove_push(c: Seq<AliasView>, a: AliasView, name: Seq<char>)
    ensures
        spec_remove(c.push(a), name) == spec_remove(c, name) + (if a.name == name {
            Seq::<AliasView>::empty()
        } else {
            seq![a]
        }),
    decreases c.len(),
{
    let tail: Seq<AliasView> = if a.name == name {
        Seq::empty()
    } else {
        seq![a]
    };
    if c.len() == 0 {
        assert(c.push(a)[0] == a);
        assert(c.push(a).drop_first() =~= Seq::<AliasView>::empty());
        assert(spec_remove(Seq::<AliasView>::empty(), name) == Seq::<AliasView>::empty());
        assert(spec_remove(c.push(a), name) =~= spec_remove(c, name) + tail);
    } else {
        assert(c.push(a)[0] == c[0]);
        assert(c.push(a).drop_first() =~= c.drop_first().push(a));
        lemma_remove_push(c.drop_first(), a, name);
        assert(spec_remove(c.push(a), name) =~= spec_remove(c, name) + tail);
    }
}

/// Removing a name that is not present leaves the collection unchanged.
proof fn lemma_remove_absent_noop(c: Seq<AliasView>, name: Seq<char>)
    requires
        !has_name(c, name),
    ensures
        spec_remove(c, name) == c,
    decreases c.len(),
{
    if c.len() == 0 {
        assert(spec_remove(c, name) =~= c);
    } else {
        assert(c[0].name != name);
        assert forall|i: int| 0 <= i < c.drop_first().len() implies (#[trigger] c.drop_first()[i]).name
            != name by {
            assert(c.drop_first()[i] == c[i + 1]);
        }
        lemma_remove_absent_noop(c.drop_first(), name);
        assert(spec_remove(c, name) =~= c);
    }
}

/// Idempotence of removal: deleting a name that is absent from a stored
/// collection rewrites the file with byte-identical content.
pub proof fn lemma_remove_absent(c: Seq<AliasView>, name: Seq<char>)
    requires
        forall|i: int| 0 <= i < c.len() ==> crate::grammar::record_ok(#[trigger] c[i]),
        !has_name(c, name),
    ensures
        spec_serialize(spec_remove(spec_parse(spec_serialize(c)), name)) == spec_serialize(c),
{
    crate::grammar::lemma_round_trip(c);
    lemma_remove_absent_noop(c, name);
}

/// The imported records whose names are new to `cur`, in imported order.
pub open spec fn spec_new_records(cur: Seq<AliasView>, imp: Seq<AliasView>) -> Seq<AliasView>
    decreases imp.len(),
{
    if imp.len() == 0 {
        Seq::empty()
    } else if has_name(cur, imp[0].name) {
        spec_new_records(cur, imp.drop_first())
    } else {
        seq![imp[0]] + spec_new_records(cur, imp.drop_first())
    }
}

/// The command of the first record of `c` named `name`.
pub open spec fn first_command_of(c: Seq<AliasView>, name: Seq<char>) -> Seq<char>
    decreases c.len(),
{
    if c.len() == 0 {
        Seq::empty()
    } else if c[0].name == name {
        c[0].command
    } else {
        first_command_of(c.drop_first(), name)
    }
}

proof fn lemma_has_name_tail(c: Seq<AliasView>, n: Seq<char>)
    requires
        c.len() > 0,
    ensures
        has_name(c, n) == (c[0].name == n || has_name(c.drop_first(), n)),
{
    if has_name(c, n) {
        let w = choose|w: int| 0 <= w < c.len() && (#[trigger] c[w]).name == n;
        if w > 0 {
            assert(c.drop_first()[w - 1] == c[w]);
            assert(has_name(c.drop_first(), n));
        }
    }
    if has_name(c.drop_first(), n) {
        let w = choose|w: int|
            0 <= w < c.drop_first().len() && (#[trigger] c.drop_first()[w]).name == n;
        assert(c[w + 1] == c.drop_first()[w]);
        assert(has_name(c, n));
    }
}

proof fn lemma_has_name_push(c: Seq<AliasView>, a: AliasView, n: Seq<char>)
    ensures
        has_name(c.push(a), n) == (has_name(c, n) || a.name == n),
{
    if has_name(c, n) {
        let w = choose|w: int| 0 <= w < c.len() && (#[trigger] c[w]).name == n;
        assert(c.push(a)[w] == c[w]);
        assert(has_name(c.push(a), n));
    }
    if a.name == n {
        assert(c.push(a)[c.len() as int].name == n);
        assert(has_name(c.push(a), n));
    }
    if has_name(c.push(a), n) {
        let w = choose|w: int| 0 <= w < c.push(a).len() && (#[trigger] c.push(a)[w]).name == n;
        if w < c.len() {
            assert(c[w] == c.push(a)[w]);
            assert(has_name(c, n));
        } else {
            assert(c.push(a)[w] == a);
        }
    }
}

/// `spec_new_records` depends only on which names `cur` holds.
proof fn lemma_new_records_same_names(c1: Seq<AliasView>, c2: Seq<AliasView>, imp: Seq<AliasView>)
    requires
        c1.len() == c2.len(),
        forall|i: int| 0 <= i < c1.len() ==> (#[trigger] c1[i]).name == c2[i].name,
    ensures
        spec_new_records(c1, imp) == spec_new_records(c2, imp),
    decreases imp.len(),
{
    if imp.len() > 0 {
        if has_name(c1, imp[0].name) {
            let w = choose|w: int| 0 <= w < c1.len() && (#[trigger] c1[w]).name == imp[0].name;
            assert(c2[w].name == imp[0].name);
            assert(has_name(c2, imp[0].name));
        }
        if has_name(c2, imp[0].name) {
            let w = choose|w: int| 0 <= w < c2.len() && (#[trigger] c2[w]).name == imp[0].name;
            assert(c1[w].name == imp[0].name);
            assert(has_name(c1, imp[0].name));
        }
        lemma_new_records_same_names(c1, c2, imp.drop_first());
    }
}

/// Appending a record whose name no import carries does not change which
/// imports count as new.
proof fn lemma_new_records_push_irrelevant(
    cur: Seq<AliasView>,
    a: AliasView,
    imp: Seq<AliasView>,
)
    requires
        forall|k: int| 0 <= k < imp.len() ==> (#[trigger] imp[k]).name != a.name,
    ensures
        spec_new_records(cur.push(a), imp) == spec_new_records(cur, imp),
    decreases imp.len(),
{
    if imp.len() > 0 {
        lemma_has_name_push(cur, a, imp[0].name);
        assert(imp[0].name != a.name);
        assert(forall|k: int|
            0 <= k < imp.drop_first().len() ==> (#[trigger] imp.drop_first()[k]).name != a.name)
            by {
            assert forall|k: int| 0 <= k < imp.drop_first().len() implies (#[trigger] imp.drop_first()[k]).name
                != a.name by {
                assert(imp.drop_first()[k] == imp[k + 1]);
            }
        }
        lemma_new_records_push_irrelevant(cur, a, imp.drop_first());
    }
}

/// Merge precedence: importing into a uniquely-named collection overwrites
/// the command of every name collision in place, leaves every other local
/// record untouched in its position, and appends exactly the imports with
/// new names, at the end, in imported order.
pub proof fn lemma_merge_precedence(cur: Seq<AliasView>, imp: Seq<AliasView>)
    requires
        unique_names(cur),
        unique_names(imp),
    ensures
        spec_merge(cur, imp).len() == cur.len() + spec_new_records(cur, imp).len(),
        forall|i: int|
            0 <= i < cur.len() ==> (#[trigger] spec_merge(cur, imp)[i]).name == cur[i].name,
        forall|i: int|
            0 <= i < cur.len() && has_name(imp, cur[i].name) ==> (#[trigger] spec_merge(
                cur,
                imp,
            )[i]).command == first_command_of(imp, cur[i].name),
        forall|i: int|
            0 <= i < cur.len() && !has_name(imp, cur[i].name) ==> (#[trigger] spec_merge(
                cur,
                imp,
            )[i]) == cur[i],
        spec_merge(cur, imp).subrange(cur.len() as int, spec_merge(cur, imp).len() as int)
            == spec_new_records(cur, imp),
    decreases imp.len(),
{
    let m = spec_merge(cur, imp);
    if imp.len() == 0 {
        assert(m == cur);
        assert forall|i: int| 0 <= i < cur.len() implies !has_name(imp, cur[i].name) by {}
        assert(m.subrange(cur.len() as int, m.len() as int) =~= spec_new_records(cur, imp));
    } else {
        let a = imp[0];
        let imp2 = imp.drop_first();
        let cur2 = merge_one(cur, a);
        assert(unique_names(imp2)) by {
            assert forall|i: int, j: int| 0 <= i < j < imp2.len() implies (#[trigger] imp2[i]).name
                != (#[trigger] imp2[j]).name by {
                assert(imp2[i] == imp[i + 1] && imp2[j] == imp[j + 1]);
            }
        }
        assert(forall|k: int| 0 <= k < imp2.len() ==> (#[trigger] imp2[k]).name != a.name) by {
            assert forall|k: int| 0 <= k < imp2.len() implies (#[trigger] imp2[k]).name != a.name by {
                assert(imp2[k] == imp[k + 1]);
                assert(imp[0].name != imp[k + 1].name);
            }
        }
        assert(m == spec_merge(cur2, imp2));
        if has_name(cur, a.name) {
            assert(cur2 == spec_replace(cur, a.name, a.command));
            assert(cur2.len() == cur.len());
            assert(forall|i: int| 0 <= i < cur.len() ==> (#[trigger] cur2[i]) == override_command(
                cur[i],
                a.name,
                a.command,
            ));
            assert(unique_names(cur2)) by {
                assert forall|i: int, j: int| 0 <= i < j < cur2.len() implies (#[trigger] cur2[i]).name
                    != (#[trigger] cur2[j]).name by {
                    assert(cur2[i].name == cur[i].name && cur2[j].name == cur[j].name);
                }
            }
            lemma_merge_precedence(cur2, imp2);
            lemma_new_records_same_names(cur2, cur, imp2);
            assert(spec_new_records(cur, imp) == spec_new_records(cur, imp2));
            assert(m.len() == cur.len() + spec_new_records(cur, imp).len());
            assert forall|i: int| 0 <= i < cur.len() implies (#[trigger] m[i]).name == cur[i].name by {
                assert(cur2[i].name == cur[i].name);
            }
            assert forall|i: int| 0 <= i < cur.len() && has_name(imp, cur[i].name) implies (
            #[trigger] m[i]).command == first_command_of(imp, cur[i].name) by {
                if cur[i].name == a.name {
                    assert(cur2[i] == AliasView { name: cur[i].name, command: a.command });
                    if has_name(imp2, cur[i].name) {
                        let w = choose|w: int|
                            0 <= w < imp2.len() && (#[trigger] imp2[w]).name == cur[i].name;
                        assert(false);
                    }
                    assert(m[i] == cur2[i]);
                    assert(first_command_of(imp, cur[i].name) == a.command);
                } else {
                    assert(cur2[i] == cur[i]);
                    lemma_has_name_tail(imp, cur[i].name);
                    assert(has_name(imp2, cur[i].name));
                    assert(m[i].command == first_command_of(imp2, cur[i].name));
                    assert(first_command_of(imp, cur[i].name) == first_command_of(
                        imp2,
                        cur[i].name,
                    ));
                }
            }
            assert forall|i: int| 0 <= i < cur.len() && !has_name(imp, cur[i].name) implies (
            #[trigger] m[i]) == cur[i] by {
                lemma_has_name_tail(imp, cur[i].name);
                assert(cur[i].name != a.name);
                assert(cur2[i] == cur[i]);
                assert(!has_name(imp2, cur[i].name));
            }
            assert(m.subrange(cur.len() as int, m.len() as int) == spec_new_records(cur, imp));
        } else {
            assert(cur2 == cur.push(a));
            assert(cur2.len() == cur.len() + 1);
            assert(unique_names(cur2)) by {
                assert forall|i: int, j: int| 0 <= i < j < cur2.len() implies (#[trigger] cur2[i]).name
                    != (#[trigger] cur2[j]).name by {
                    if j < cur.len() {
                        assert(cur2[i] == cur[i] && cur2[j] == cur[j]);
                    } else {
                        assert(cur2[j] == a);
                        assert(cur2[i] == cur[i]);
                        if cur[i].name == a.name {
                            assert(has_name(cur, a.name));
                        }
                    }
                }
            }
            lemma_merge_precedence(cur2, imp2);
            lemma_new_records_push_irrelevant(cur, a, imp2);
            assert(spec_new_records(cur2, imp2) == spec_new_records(cur, imp2));
            assert(spec_new_records(cur, imp) == seq![a] + spec_new_records(cur, imp2));
            assert(m.len() == cur.len() + spec_new_records(cur, imp).len());
            assert forall|i: int| 0 <= i < cur.len() implies (#[trigger] m[i]).name == cur[i].name by {
                assert(cur2[i] == cur[i]);
            }
            assert forall|i: int| 0 <= i < cur.len() && has_name(imp, cur[i].name) implies (
            #[trigger] m[i]).command == first_command_of(imp, cur[i].name) by {
                assert(cur2[i] == cur[i]);
                if cur[i].name == a.name {
                    assert(has_name(cur, a.name));
                }
                lemma_has_name_tail(imp, cur[i].name);
                assert(has_name(imp2, cur[i].name));
                assert(first_command_of(imp, cur[i].name) == first_command_of(imp2, cur[i].name));
            }
            assert forall|i: int| 0 <= i < cur.len() && !has_name(imp, cur[i].name) implies (
            #[trigger] m[i]) == cur[i] by {
                assert(cur2[i] == cur[i]);
                lemma_has_name_tail(imp, cur[i].name);
                assert(!has_name(imp2, cur[i].name));
            }
            let appended = m.subrange(cur.len() as int, m.len() as int);
            assert(m[cur.len() as int] == a) by {
                assert(cur2[cur.len() as int] == a);
                if has_name(imp2, a.name) {
                    let w = choose|w: int|
                        0 <= w < imp2.len() && (#[trigger] imp2[w]).name == a.name;
                    assert(false);
                }
            }
            assert(appended =~= seq![a] + m.subrange(cur2.len() as int, m.len() as int));
            assert(appended =~= spec_new_records(cur, imp));
        }
    }
}

/// Import-merge: parse the imported text and reconcile it against the
/// current collection, imported values winning on name collision; the full
/// new file content is returned. Never fails: malformed imported lines are
/// simply skipped by the parser.
pub fn import_aliases_from_content(current: &str, imported: &str) -> (r: String)
    ensures
        r@ == spec_serialize(spec_merge(spec_parse(current@), spec_parse(imported@))),
{
    let ghost c0 = spec_parse(current@);
    let ghost imp = spec_parse(imported@);
    let mut cur = parse_aliases_from_content(current);
    let incoming = parse_aliases_from_content(imported);
    let mut i: usize = 0;
    proof {
        assert(imp.subrange(0, imp.len() as int) =~= imp);
    }
    while i < incoming.len()
        invariant
            i <= incoming@.len(),
            views_of(incoming@) == imp,
            spec_merge(views_of(cur@), imp.subrange(i as int, imp.len() as int)) == spec_merge(
                c0,
                imp,
            ),
        decreases incoming@.len() - i,
    {
        proof {
            assert(imp[i as int] == incoming@[i as int]@);
        }
        let ghost cv = views_of(cur@);
        let ghost a = imp[i as int];
        let mut found = false;
        let mut out: Vec<Alias> = Vec::new();
        let mut j: usize = 0;
        proof {
            assert(cv.subrange(0, 0) =~= Seq::<AliasView>::empty());
        }
        while j < cur.len()
            invariant
                j <= cur@.len(),
                cv == views_of(cur@),
                a == incoming@[i as int]@,
                i < incoming@.len(),
                found == has_name(cv.subrange(0, j as int), a.name),
                views_of(out@) == spec_replace(cv.subrange(0, j as int), a.name, a.command),
            decreases cur@.len() - j,
        {
            proof {
                assert(cv.len() == cur@.len());
                assert(cv[j as int] == cur@[j as int]@);
            }
            let ghost out_old = out@;
            proof {
                assert(views_of(out_old).len() == out_old.len());
                assert(cv.subrange(0, j as int).len() == j);
                assert(spec_replace(cv.subrange(0, j as int), a.name, a.command).len() == j);
            }
            let nm = cur[j].name.clone();
            if cur[j].name == incoming[i].name {
                let cmd = incoming[i].command.clone();
                out.push(Alias { name: nm, command: cmd });
                found = true;
                proof {
                    assert(out_old.len() == j);
                    assert(cv[j as int].name == a.name);
                    assert(out@[j as int]@ == override_command(cv[j as int], a.name, a.command));
                }
            } else {
                let cmd = cur[j].command.clone();
                out.push(Alias { name: nm, command: cmd });
                proof {
                    assert(out_old.len() == j);
                    assert(cv[j as int].name != a.name);
                    assert(out@[j as int]@ == override_command(cv[j as int], a.name, a.command));
                }
            }
            proof {
                let pre = cv.subrange(0, j as int);
                let post = cv.subrange(0, j as int + 1);
                assert(post.len() == j + 1);
                assert(post[j as int] == cv[j as int]);
                assert(out@.len() == j + 1);
                assert forall|k: int| 0 <= k < j + 1 implies views_of(out@)[k] == spec_replace(
                    post,
                    a.name,
                    a.command,
                )[k] by {
                    assert(views_of(out@)[k] == out@[k]@);
                    assert(spec_replace(post, a.name, a.command)[k] == override_command(
                        post[k],
                        a.name,
                        a.command,
                    ));
                    assert(post[k] == cv[k]);
                    if k < j {
                        assert(out@[k] == out_old[k]);
                        assert(views_of(out_old)[k] == out_old[k]@);
                        assert(views_of(out_old)[k] == spec_replace(pre, a.name, a.command)[k]);
                        assert(spec_replace(pre, a.name, a.command)[k] == override_command(
                            pre[k],
                            a.name,
                            a.command,
                        ));
                        assert(pre[k] == cv[k]);
                    }
                }
                assert(views_of(out@) =~= spec_replace(post, a.name, a.command));
                if has_name(pre, a.name) {
                    let w = choose|w: int|
                        0 <= w < pre.len() && (#[trigger] pre[w]).name == a.name;
                    assert(post[w] == pre[w]);
                    assert(has_name(post, a.name));
                }
                if cv[j as int].name == a.name {
                    assert(has_name(post, a.name));
                }
                if has_name(post, a.name) {
                    let w = choose|w: int|
                        0 <= w < post.len() && (#[trigger] post[w]).name == a.name;
                    if w < j {
                        assert(pre[w] == post[w]);
                        assert(has_name(pre, a.name));
                    }
                }
                assert(has_name(post, a.name) == (has_name(pre, a.name) || cv[j as int].name
                    == a.name));
                assert(found == has_name(post, a.name));
            }
            j += 1;
        }
        proof {
            assert(cv.subrange(0, cv.len() as int) =~= cv);
        }
        if found {
            cur = out;
            proof {
                assert(views_of(cur@) =~= merge_one(cv, a));
            }
        } else {
            let nm = incoming[i].name.clone();
            let cmd = incoming[i].command.clone();
            cur.push(Alias { name: nm, command: cmd });
            proof {
                assert(views_of(cur@) =~= cv.push(a));
                assert(views_of(cur@) == merge_one(cv, a));
            }
        }
        proof {
            let rest = imp.subrange(i as int, imp.len() as int);
            assert(rest[0] == imp[i as int]);
            assert(rest.drop_first() =~= imp.subrange(i as int + 1, imp.len() as int));
            assert(spec_merge(cv, rest) == spec_merge(merge_one(cv, a), rest.drop_first()));
        }
        i += 1;
    }
    proof {
        assert(imp.subrange(imp.len() as int, imp.len() as int) =~= Seq::<AliasView>::empty());
    }
    serialize_aliases(&cur)
}

} // verus!
