//! Adding, connecting and removing the places that backups are archived to.
use vstd::prelude::*;

use crate::catalog::{
    has_name, name_taken, named, named_facts, table_full, Catalog, CatalogView, DestinationRecord,
    DestinationView,
};
use crate::error::CradleError;
use crate::progress::{align_left, left_aligned};
use crate::rows::{kept_contains, views};
use crate::text::texts;

verus! {

/// What is said of a name that no destination has.
pub open spec fn unknown(name: Seq<char>) -> Seq<char> {
    "No destination named '"@ + name + "'."@
}

/// The destination with this name, or what is said where there is none.
pub fn find_destination(catalog: &Catalog, name: &str) -> (r: Result<DestinationRecord, String>)
    ensures
        match r {
            Ok(d) => named(catalog@.destinations, name@) == Some(d@),
            Err(m) => named(catalog@.destinations, name@) is None && m@ == unknown(name@),
        },
{
    match catalog.destination_by_name(name) {
        Some(d) => Ok(d),
        None => Err("No destination named '".to_owned().concat(name).concat("'.")),
    }
}

/// The destination with this name, or what the terminal says where there is
/// none.
pub fn resolve_destination(catalog: &Catalog, name: &str) -> (r: Result<
    DestinationRecord,
    String,
>)
    ensures
        match r {
            Ok(d) => named(catalog@.destinations, name@) == Some(d@),
            Err(m) => named(catalog@.destinations, name@) is None && m@ == unknown(name@)
                + " Run `cradle destination list` to see what's configured."@,
        },
{
    match find_destination(catalog, name) {
        Ok(d) => Ok(d),
        Err(m) => Err(m.concat(" Run `cradle destination list` to see what's configured.")),
    }
}

/// Refuses a name that is taken.
pub fn require_free_name(catalog: &Catalog, name: &str) -> (r: Result<(), String>)
    ensures
        match r {
            Ok(()) => !has_name(catalog@.destinations, name@),
            Err(m) => has_name(catalog@.destinations, name@) && m@ == "A destination named '"@
                + name@ + "' already exists."@,
        },
{
    match catalog.destination_by_name(name) {
        None => Ok(()),
        Some(_) => Err(
            "A destination named '".to_owned().concat(name).concat("' already exists."),
        ),
    }
}

/// A destination that is not in the catalog yet.
pub fn probe(name: &str, kind: &str, uri: &str, credential_ref: &str) -> (d: DestinationRecord)
    ensures
        d@ == (DestinationView {
            id: 0,
            name: name@,
            kind: kind@,
            uri: uri@,
            credential_ref: credential_ref@,
            retention_json: None,
        }),
{
    DestinationRecord {
        id: 0,
        name: name.to_owned(),
        kind: kind.to_owned(),
        uri: uri.to_owned(),
        credential_ref: credential_ref.to_owned(),
        retention_json: None,
    }
}

/// Why a destination was not added, and whether the password stored for it
/// has to go again.
#[derive(Debug)]
pub struct Setback {
    pub error: String,
    pub drop_credential: bool,
}

/// Records a destination whose repository is there.
fn record(catalog: &mut Catalog, d: &DestinationRecord) -> (r: Result<(), Setback>)
    requires
        old(catalog)@.wf(),
    ensures
        final(catalog)@.wf(),
        match r {
            Ok(()) => {
                &&& !has_name(old(catalog)@.destinations, d@.name)
                &&& final(catalog)@ == old(catalog)@.with_destination(
                    d@.name,
                    d@.kind,
                    d@.uri,
                    d@.credential_ref,
                )
            },
            Err(s) => {
                &&& final(catalog)@ == old(catalog)@
                &&& !s.drop_credential
                &&& if old(catalog)@.last_destination == i64::MAX {
                    s.error@ == table_full().text()
                } else {
                    has_name(old(catalog)@.destinations, d@.name) && s.error@
                        == name_taken().text()
                }
            },
        },
{
    match catalog.create_destination(
        d.name.as_str(),
        d.kind.as_str(),
        d.uri.as_str(),
        d.credential_ref.as_str(),
    ) {
        Ok(_) => Ok(()),
        Err(e) => Err(Setback { error: e.message(), drop_credential: false }),
    }
}

/// Adds a destination once its repository was initialised; says whether that
/// made a new one. Where it was not, nothing is left of it: the catalog stays
/// as it was, and the password goes.
pub fn add_destination(
    catalog: &mut Catalog,
    d: &DestinationRecord,
    init: Result<bool, CradleError>,
) -> (r: Result<bool, Setback>)
    requires
        old(catalog)@.wf(),
    ensures
        final(catalog)@.wf(),
        match (init, r) {
            (Ok(created), Ok(new)) => {
                &&& new == created
                &&& !has_name(old(catalog)@.destinations, d@.name)
                &&& final(catalog)@ == old(catalog)@.with_destination(
                    d@.name,
                    d@.kind,
                    d@.uri,
                    d@.credential_ref,
                )
            },
            (Ok(_), Err(s)) => {
                &&& final(catalog)@ == old(catalog)@
                &&& !s.drop_credential
                &&& if old(catalog)@.last_destination == i64::MAX {
                    s.error@ == table_full().text()
                } else {
                    has_name(old(catalog)@.destinations, d@.name) && s.error@
                        == name_taken().text()
                }
            },
            (Err(e), Err(s)) => {
                &&& final(catalog)@ == old(catalog)@
                &&& s.drop_credential
                &&& s.error@ == e@.text()
            },
            _ => false,
        },
{
    match init {
        Err(e) => Err(Setback { error: e.message(), drop_credential: true }),
        Ok(created) => match record(catalog, d) {
            Ok(()) => Ok(created),
            Err(s) => Err(s),
        },
    }
}

/// Connects a destination once its repository opened with the password that
/// was given. Where it did not, nothing is left of it.
pub fn connect_destination(
    catalog: &mut Catalog,
    d: &DestinationRecord,
    opened: Result<(), CradleError>,
) -> (r: Result<(), Setback>)
    requires
        old(catalog)@.wf(),
    ensures
        final(catalog)@.wf(),
        match (opened, r) {
            (Ok(()), Ok(())) => {
                &&& !has_name(old(catalog)@.destinations, d@.name)
                &&& final(catalog)@ == old(catalog)@.with_destination(
                    d@.name,
                    d@.kind,
                    d@.uri,
                    d@.credential_ref,
                )
            },
            (Ok(()), Err(s)) => {
                &&& final(catalog)@ == old(catalog)@
                &&& !s.drop_credential
                &&& if old(catalog)@.last_destination == i64::MAX {
                    s.error@ == table_full().text()
                } else {
                    has_name(old(catalog)@.destinations, d@.name) && s.error@
                        == name_taken().text()
                }
            },
            (Err(e), Err(s)) => {
                &&& final(catalog)@ == old(catalog)@
                &&& s.drop_credential
                &&& s.error@ == "Could not open the repository at "@ + d@.uri
                    + " with that password: "@ + e@.text()
            },
            _ => false,
        },
{
    match opened {
        Err(e) => Err(
            Setback {
                error: "Could not open the repository at ".to_owned().concat(
                    d.uri.as_str(),
                ).concat(" with that password: ").concat(e.message().as_str()),
                drop_credential: true,
            },
        ),
        Ok(()) => record(catalog, d),
    }
}

/// Removes a destination from the catalog, and gives it back.
pub fn remove_destination(catalog: &mut Catalog, name: &str) -> (r: Option<DestinationRecord>)
    requires
        old(catalog)@.wf(),
    ensures
        final(catalog)@.wf(),
        match r {
            Some(d) => {
                &&& named(old(catalog)@.destinations, name@) == Some(d@)
                &&& final(catalog)@ == old(catalog)@.without_destination(d.id)
            },
            None => named(old(catalog)@.destinations, name@) is None && final(catalog)@ == old(
                catalog,
            )@,
        },
{
    match catalog.destination_by_name(name) {
        Some(d) => {
            catalog.delete_destination(d.id);
            Some(d)
        },
        None => None,
    }
}

// --- what the terminal says ------------------------------------------------------------------

/// What is said of a destination that was added.
pub fn added_line(name: &str, uri: &str, created: bool) -> (s: String)
    ensures
        s@ == "Destination '"@ + name@ + (if created {
            "' created and repository initialized."@
        } else {
            "' created — a repository already existed at "@ + uri@ + ", reusing it."@
        }),
{
    let tail = if created {
        "' created and repository initialized.".to_owned()
    } else {
        "' created — a repository already existed at ".to_owned().concat(uri).concat(
            ", reusing it.",
        )
    };
    "Destination '".to_owned().concat(name).concat(tail.as_str())
}

/// What is said of a destination that was connected.
pub fn connected_line(name: &str, uri: &str) -> (s: String)
    ensures
        s@ == "Destination '"@ + name@ + "' connected to the existing repository at "@ + uri@
            + "."@,
{
    "Destination '".to_owned().concat(name).concat(
        "' connected to the existing repository at ",
    ).concat(uri).concat(".")
}

/// What is said of a destination that was removed, with or without its
/// password.
pub open spec fn removed(name: Seq<char>, uri: Seq<char>, credential_deleted: bool) -> Seq<char> {
    if credential_deleted {
        "Removed destination '"@ + name
            + "' and deleted its stored password. The repository at "@ + uri
            + " still has its data, but Cradle can no longer read or write it without that password."@
    } else {
        "Forgot destination '"@ + name
            + "'. Its stored password was kept — run `cradle destination connect --name "@ + name
            + " --uri "@ + uri
            + " --password <password>` (get the password first with `cradle destination show-password --name "@
            + name + "` if you still have it, before forgetting again) to bring it back."@
    }
}

/// What is said of a destination that was removed.
pub fn removed_line(name: &str, uri: &str, credential_deleted: bool) -> (s: String)
    ensures
        s@ == removed(name@, uri@, credential_deleted),
{
    if credential_deleted {
        "Removed destination '".to_owned().concat(name).concat(
            "' and deleted its stored password. The repository at ",
        ).concat(uri).concat(
            " still has its data, but Cradle can no longer read or write it without that password.",
        )
    } else {
        "Forgot destination '".to_owned().concat(name).concat(
            "'. Its stored password was kept — run `cradle destination connect --name ",
        ).concat(name).concat(" --uri ").concat(uri).concat(
            " --password <password>` (get the password first with `cradle destination show-password --name ",
        ).concat(name).concat(
            "` if you still have it, before forgetting again) to bring it back.",
        )
    }
}

/// What is said where there are no destinations.
pub const NO_DESTINATIONS: &'static str = "No destinations configured. Add one with `cradle destination add`.";

/// The line a destination is listed with.
pub open spec fn destination_words(d: DestinationView) -> Seq<char> {
    left_aligned(d.name, 12) + " "@ + left_aligned(d.kind, 8) + " "@ + d.uri
}

/// The destinations, line by line, in the order of their names.
pub fn destination_lines(catalog: &Catalog) -> (out: Vec<String>)
    ensures
        ({
            let listed = crate::catalog::by_name(catalog@.destinations);
            texts(out@) == (if listed.len() == 0 {
                seq![NO_DESTINATIONS@]
            } else {
                listed.map_values(|d: DestinationView| destination_words(d))
            })
        }),
{
    broadcast use crate::text::texts_push;

    let all = catalog.list_destinations();
    let ghost ds = views(all@);
    let ghost f = |d: DestinationView| destination_words(d);
    let mut out: Vec<String> = Vec::new();
    if all.len() == 0 {
        out.push(NO_DESTINATIONS.to_owned());
        assert(texts(out@) =~= seq![NO_DESTINATIONS@]);
        return out;
    }
    let mut i: usize = 0;
    assert(texts(out@) =~= ds.take(0).map_values(f));
    while i < all.len()
        invariant
            i <= all@.len(),
            ds == views(all@),
            f == (|d: DestinationView| destination_words(d)),
            texts(out@) == ds.take(i as int).map_values(f),
        decreases all@.len() - i,
    {
        broadcast use crate::text::texts_push;

        let d = &all[i];
        out.push(
            align_left(d.name.as_str(), 12).concat(" ").concat(
                align_left(d.kind.as_str(), 8).as_str(),
            ).concat(" ").concat(d.uri.as_str()),
        );
        assert(ds.take(i + 1).map_values(f) =~= ds.take(i as int).map_values(f).push(
            f(ds[i as int]),
        ));
        i = i + 1;
    }
    assert(ds.take(i as int) =~= ds);
    out
}

// --- laws ------------------------------------------------------------------------------------

/// A destination that was added is found under its name, as it was added.
pub proof fn law_added_is_found(
    c: CatalogView,
    name: Seq<char>,
    kind: Seq<char>,
    uri: Seq<char>,
    credential_ref: Seq<char>,
)
    requires
        c.wf(),
        c.last_destination < i64::MAX,
        !has_name(c.destinations, name),
    ensures
        ({
            let d = named(
                c.with_destination(name, kind, uri, credential_ref).destinations,
                name,
            );
            &&& d is Some
            &&& d->Some_0.kind == kind
            &&& d->Some_0.uri == uri
            &&& d->Some_0.credential_ref == credential_ref
            &&& d->Some_0.retention_json is None
        }),
{
    let rows = c.with_destination(name, kind, uri, credential_ref).destinations;
    named_facts(rows, name);
    assert(rows.last().name == name);
    let n = rows.len() - 1;
    assert(rows[n].name == name);
    let d = named(rows, name)->Some_0;
    let i = choose|i: int| 0 <= i < rows.len() && rows[i] == d;
    if i < n {
        assert(c.destinations[i].name == name);
    }
}

/// A destination that was removed is found no more, and its name is free.
pub proof fn law_removed_is_forgotten(c: CatalogView, name: Seq<char>)
    requires
        c.wf(),
        named(c.destinations, name) is Some,
    ensures
        ({
            let d = named(c.destinations, name)->Some_0;
            let next = c.without_destination(d.id);
            &&& named(next.destinations, name) is None
            &&& !has_name(next.destinations, name)
        }),
{
    let d = named(c.destinations, name)->Some_0;
    named_facts(c.destinations, name);
    let next = c.without_destination(d.id);
    named_facts(next.destinations, name);
    if has_name(next.destinations, name) {
        let i = choose|i: int|
            0 <= i < next.destinations.len() && (#[trigger] next.destinations[i]).name == name;
        kept_contains(c.destinations, |x: DestinationView| x.id != d.id, next.destinations[i]);
    }
}

/// What is said of a removed destination names it and its place, and says that the
/// password is gone just when it is.
pub proof fn law_removed_words(name: Seq<char>, uri: Seq<char>)
    ensures
        removed(name, uri, true) == "Removed destination '"@ + name
            + "' and deleted its stored password. The repository at "@ + uri
            + " still has its data, but Cradle can no longer read or write it without that password."@,
        removed(name, uri, false) == "Forgot destination '"@ + name
            + "'. Its stored password was kept — run `cradle destination connect --name "@ + name
            + " --uri "@ + uri
            + " --password <password>` (get the password first with `cradle destination show-password --name "@
            + name + "` if you still have it, before forgetting again) to bring it back."@,
        unknown(name) == "No destination named '"@ + name + "'."@,
{
}

/// A destination's line has its name, its kind and its place in columns.
pub proof fn law_destination_line(d: DestinationView)
    requires
        d.name.len() <= 12,
        d.kind.len() <= 8,
    ensures
        destination_words(d).len() == 22 + d.uri.len(),
        destination_words(d).take(d.name.len() as int) == d.name,
        destination_words(d).subrange(13, 13 + d.kind.len() as int) == d.kind,
        destination_words(d).skip(22) == d.uri,
{
    reveal_strlit(" ");
    let s = destination_words(d);
    assert(s.take(d.name.len() as int) =~= d.name);
    assert(s.subrange(13, 13 + d.kind.len() as int) =~= d.kind);
    assert(s.skip(22) =~= d.uri);
}

} // verus!
