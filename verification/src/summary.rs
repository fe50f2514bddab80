//! What the commands print: target lists, render summaries and the
//! verification message.
use vstd::prelude::*;

use crate::cli::RenderArgs;
use crate::commands::{reference, CommandError};
use crate::model::{first_with_id, packages, status_text, ImageCatalog, ImageTarget};
use crate::text::{decimal, decimal_string, join, owned, push_str, views};

verus! {

broadcast use vstd::string::group_string_axioms;

/// How many Dockerfiles a render run generated, updated or left alone.
#[derive(Debug, Clone, Copy, Default)]
pub struct SyncSummary {
    pub generated: usize,
    pub updated: usize,
    pub unchanged: usize,
}

/// `""` for one, `"s"` otherwise.
pub open spec fn plural_of(count: nat) -> Seq<char> {
    if count == 1 {
        ""@
    } else {
        "s"@
    }
}

/// The plural ending for `count` things.
pub fn plural(count: usize) -> (r: &'static str)
    ensures
        r@ == plural_of(count as nat),
{
    if count == 1 {
        ""
    } else {
        "s"
    }
}

/// `<count> dockerfile[s]`.
pub open spec fn count_text(count: nat) -> Seq<char> {
    decimal(count) + " dockerfile"@ + plural_of(count)
}

/// `<count> dockerfile[s]`.
pub fn count_with_noun(count: usize) -> (r: String)
    ensures
        r@ == count_text(count as nat),
{
    let mut r = decimal_string(count as u64);
    push_str(&mut r, " dockerfile");
    push_str(&mut r, plural(count));
    r
}

/// The message of a render run.
pub open spec fn render_text(s: SyncSummary) -> Seq<char> {
    if s.generated + s.updated == 0 {
        "all dockerfiles already up to date"@
    } else {
        join(
            (if s.generated > 0 {
                seq!["generated "@ + count_text(s.generated as nat)]
            } else {
                Seq::empty()
            }) + (if s.updated > 0 {
                seq!["updated "@ + count_text(s.updated as nat)]
            } else {
                Seq::empty()
            }) + (if s.unchanged > 0 {
                seq![count_text(s.unchanged as nat) + " already up to date"@]
            } else {
                Seq::empty()
            }),
            ", "@,
        )
    }
}

/// What a render run did, in one line.
pub fn render_message(summary: SyncSummary) -> (r: String)
    ensures
        r@ == render_text(summary),
{
    if summary.generated as u128 + summary.updated as u128 == 0 {
        return owned("all dockerfiles already up to date");
    }
    let mut parts: Vec<String> = Vec::new();
    if summary.generated > 0 {
        let mut p = owned("generated ");
        push_str(&mut p, count_with_noun(summary.generated).as_str());
        parts.push(p);
    }
    let ghost p1 = views(parts@);
    if summary.updated > 0 {
        let mut p = owned("updated ");
        push_str(&mut p, count_with_noun(summary.updated).as_str());
        parts.push(p);
    }
    let ghost p2 = views(parts@);
    if summary.unchanged > 0 {
        let mut p = count_with_noun(summary.unchanged);
        push_str(&mut p, " already up to date");
        parts.push(p);
    }
    proof {
        let s = summary;
        assert(p1 =~= (if s.generated > 0 {
            seq!["generated "@ + count_text(s.generated as nat)]
        } else {
            Seq::<Seq<char>>::empty()
        }));
        assert(p2 =~= p1 + (if s.updated > 0 {
            seq!["updated "@ + count_text(s.updated as nat)]
        } else {
            Seq::<Seq<char>>::empty()
        }));
        assert(views(parts@) =~= p2 + (if s.unchanged > 0 {
            seq![count_text(s.unchanged as nat) + " already up to date"@]
        } else {
            Seq::<Seq<char>>::empty()
        }));
    }
    crate::text::join_strings(&parts, ", ")
}

/// The message of an automatic render after tool updates.
pub open spec fn render_summary_text(s: SyncSummary) -> Seq<char> {
    if s.generated + s.updated == 0 {
        "all dockerfiles already up to date"@
    } else {
        "generated "@ + count_text(s.generated as nat) + ", updated "@ + count_text(
            s.updated as nat,
        ) + ", "@ + decimal(s.unchanged as nat) + " unchanged"@
    }
}

/// What the render after tool updates did, in one line.
pub fn render_summary(summary: SyncSummary) -> (r: String)
    ensures
        r@ == render_summary_text(summary),
{
    if summary.generated as u128 + summary.updated as u128 == 0 {
        return owned("all dockerfiles already up to date");
    }
    let mut r = owned("generated ");
    push_str(&mut r, count_with_noun(summary.generated).as_str());
    push_str(&mut r, ", updated ");
    push_str(&mut r, count_with_noun(summary.updated).as_str());
    push_str(&mut r, ", ");
    push_str(&mut r, decimal_string(summary.unchanged as u64).as_str());
    push_str(&mut r, " unchanged");
    r
}

/// The status column of `list`: the status, marked hidden when unpublished.
pub fn render_status(publish: bool, status: &str) -> (r: String)
    ensures
        r@ == if publish {
            status@
        } else {
            status@ + "/hidden"@
        },
{
    let mut r = owned(status);
    if !publish {
        push_str(&mut r, "/hidden");
    }
    r
}

/// The row `list` prints for a target.
pub open spec fn list_row(t: ImageTarget, owner: Seq<char>) -> Seq<Seq<char>> {
    seq![
        t.id@,
        if t.publish {
            status_text(t.status)
        } else {
            status_text(t.status) + "/hidden"@
        },
        "ghcr.io/"@ + owner + "/"@ + t.package@ + ":"@ + t.canonical_tags@[0]@,
        t.context@,
    ]
}

/// The rows `list` prints: id, status, GHCR reference and context of each
/// target, in catalog order.
pub fn list_rows(catalog: &ImageCatalog, owner: &str) -> (r: Vec<Vec<String>>)
    requires
        forall|i: int|
            0 <= i < catalog.targets.len() ==> #[trigger] catalog.targets@[i].canonical_tags.len()
                > 0,
    ensures
        r@.len() == catalog.targets.len(),
        forall|i: int|
            0 <= i < r@.len() ==> views(#[trigger] r@[i]@) == list_row(catalog.targets@[i], owner@),
{
    let mut rows: Vec<Vec<String>> = Vec::new();
    let mut i: usize = 0;
    while i < catalog.targets.len()
        invariant
            i <= catalog.targets.len(),
            forall|i: int|
                0 <= i < catalog.targets.len() ==> #[trigger] catalog.targets@[i].canonical_tags.len()
                    > 0,
            rows@.len() == i,
            forall|k: int|
                0 <= k < i ==> views(#[trigger] rows@[k]@) == list_row(catalog.targets@[k], owner@),
        decreases catalog.targets.len() - i,
    {
        let t = &catalog.targets[i];
        assert(t.canonical_tags.len() > 0);
        let mut row: Vec<String> = Vec::new();
        row.push(t.id.clone());
        row.push(render_status(t.publish, t.status_label()));
        row.push(reference(t.repository(owner).as_str(), t.primary_tag()));
        row.push(t.context.clone());
        assert(views(row@) =~= list_row(*t, owner@));
        rows.push(row);
        i += 1;
    }
    rows
}

/// The message of a successful `verify`.
pub fn verify_message(catalog: &ImageCatalog) -> (r: String)
    ensures
        r@ == "validated "@ + decimal(catalog.targets.len() as nat) + " image targets across "@
            + decimal(packages(catalog.targets@).to_set().len()) + " packages and confirmed rendered dockerfiles"@,
{
    let mut r = owned("validated ");
    push_str(&mut r, decimal_string(catalog.targets.len() as u64).as_str());
    push_str(&mut r, " image targets across ");
    let n = catalog.package_count();
    push_str(&mut r, decimal_string(n as u64).as_str());
    push_str(&mut r, " packages and confirmed rendered dockerfiles");
    r
}

/// The targets a render run covers: the named one, or all of them.
pub fn selected_targets<'a>(catalog: &'a ImageCatalog, image_id: &Option<String>) -> (r: Result<
    Vec<&'a ImageTarget>,
    CommandError,
>)
    ensures
        match image_id {
            Some(id) => {
                &&& (forall|i: int|
                    0 <= i < catalog.targets.len() ==> catalog.targets@[i].id@ != id@) ==> (r matches Err(
                    CommandError::UnknownImage(x),
                ) && x@ == id@)
                &&& forall|i: int|
                    first_with_id(catalog.targets@, id@, i) ==> (r matches Ok(v) && v@.len() == 1
                        && *v@[0] == catalog.targets@[i])
            },
            None => (r matches Ok(v) && v@.map_values(|t: &ImageTarget| *t) == catalog.targets@),
        },
{
    match image_id {
        Some(id) => match catalog.target(id.as_str()) {
            None => Err(CommandError::UnknownImage(id.clone())),
            Some(t) => {
                proof {
                    let i = choose|i: int|
                        first_with_id(catalog.targets@, id@, i) && *t == catalog.targets@[i];
                    assert forall|j: int| first_with_id(catalog.targets@, id@, j) implies j == i by {
                        if j < i {
                            assert(catalog.targets@[j].id@ != id@);
                        } else if j > i {
                            assert(catalog.targets@[i].id@ != id@);
                        }
                    }
                }
                let mut v: Vec<&ImageTarget> = Vec::new();
                v.push(t);
                Ok(v)
            },
        },
        None => {
            let mut v: Vec<&ImageTarget> = Vec::new();
            let mut i: usize = 0;
            while i < catalog.targets.len()
                invariant
                    i <= catalog.targets.len(),
                    v@.map_values(|t: &ImageTarget| *t) == catalog.targets@.take(i as int),
                decreases catalog.targets.len() - i,
            {
                let ghost before = v@;
                v.push(&catalog.targets[i]);
                assert(v@.map_values(|t: &ImageTarget| *t) =~= before.map_values(
                    |t: &ImageTarget| *t,
                ).push(catalog.targets@[i as int]));
                assert(catalog.targets@.take(i + 1) =~= catalog.targets@.take(i as int).push(
                    catalog.targets@[i as int],
                ));
                i += 1;
            }
            assert(catalog.targets@.take(catalog.targets.len() as int) =~= catalog.targets@);
            Ok(v)
        },
    }
}

/// The targets of a render run: the named one, or all of them;
/// `--stdout` needs exactly one.
pub fn render_selection<'a>(catalog: &'a ImageCatalog, args: &RenderArgs) -> (r: Result<
    Vec<&'a ImageTarget>,
    CommandError,
>)
    ensures
        match args.image_id {
            Some(id) => {
                &&& (forall|i: int|
                    0 <= i < catalog.targets.len() ==> catalog.targets@[i].id@ != id@) ==> (r matches Err(
                    CommandError::UnknownImage(x),
                ) && x@ == id@)
                &&& forall|i: int|
                    first_with_id(catalog.targets@, id@, i) ==> (r matches Ok(v) && v@.len() == 1
                        && *v@[0] == catalog.targets@[i])
            },
            None => if args.stdout && catalog.targets.len() != 1 {
                r matches Err(CommandError::StdoutNeedsOneImage)
            } else {
                r matches Ok(v) && v@.map_values(|t: &ImageTarget| *t) == catalog.targets@
            },
        },
{
    let v = selected_targets(catalog, &args.image_id)?;
    proof {
        if args.image_id is None {
            assert(v@.map_values(|t: &ImageTarget| *t).len() == v@.len());
        }
    }
    if args.stdout && v.len() != 1 {
        return Err(CommandError::StdoutNeedsOneImage);
    }
    Ok(v)
}

} // verus!
