//! What a configuration text holds that has no meaning here.

use crate::config::{texts, warn};
use crate::text::{debug_text, join, join3, same_text, show_debug};
use vstd::prelude::*;
use vstd::string::*;

verus! {

/// A section of a TOML text: its name and, where it is a table, its entries.
/// An entry has a key and, where it is a table again, the keys of its fields.
pub type Outline = (String, Option<Vec<(String, Option<Vec<String>>)>>);

/// An entry as plain values.
pub type EntryOutline = (Seq<char>, Option<Seq<Seq<char>>>);

/// A section as plain values.
pub type SectionOutline = (Seq<char>, Option<Seq<EntryOutline>>);

pub open spec fn entry_outline(e: (String, Option<Vec<String>>)) -> EntryOutline {
    (
        e.0@,
        match e.1 {
            Some(fields) => Some(texts(fields@)),
            None => None,
        },
    )
}

pub open spec fn section_outline(s: Outline) -> SectionOutline {
    (
        s.0@,
        match s.1 {
            Some(entries) => Some(
                entries@.map_values(|e: (String, Option<Vec<String>>)| entry_outline(e)),
            ),
            None => None,
        },
    )
}

pub open spec fn outline_of(root: Seq<Outline>) -> Seq<SectionOutline> {
    root.map_values(|s: Outline| section_outline(s))
}

/// What a TOML text holds, down to the third level of keys, each level in the
/// order of a `toml::Table`; or the message with which it is refused.
pub uninterp spec fn toml_outline(text: Seq<char>) -> Result<Seq<SectionOutline>, Seq<char>>;

/// `toml::Table::from_str`: the keys of the table that the text stands for, or
/// the message of the error. What the text has to look like is not stated.
#[verifier::external_body]
fn read_outline(text: &str) -> (r: Result<Vec<Outline>, String>)
    ensures
        match toml_outline(text@) {
            Ok(root) => r matches Ok(got) && outline_of(got@) == root,
            Err(message) => r matches Err(got) && got@ == message,
        },
{
    let table = text.parse::<toml::Table>().map_err(|e| e.to_string())?;
    let names = |t: &toml::Table| t.keys().cloned().collect::<Vec<String>>();
    let entry = |(k, v): (&String, &toml::Value)| (k.clone(), v.as_table().map(names));
    Ok(
        table.iter().map(
            |(k, v)| (k.clone(), v.as_table().map(|t| t.iter().map(entry).collect())),
        ).collect(),
    )
}

pub open spec fn is_section(name: Seq<char>) -> bool {
    name == "service"@ || name == "listener"@ || name == "upstream"@
}

pub open spec fn is_service_field(name: Seq<char>) -> bool {
    name == "log_level"@ || name == "log_path"@ || name == "cache_enable"@ || name == "cache_size"@
}

pub open spec fn is_listener_field(name: Seq<char>) -> bool {
    name == "ip"@ || name == "port"@
}

pub open spec fn is_upstream_field(name: Seq<char>) -> bool {
    name == "name"@ || name == "type"@ || name == "endpoint"@ || name == "bootstrap_ip"@ || name
        == "timeout"@ || name == "ip_stack"@
}

/// The sections whose fields are checked.
#[derive(Clone, Copy, PartialEq, Eq, Structural)]
pub enum Kind {
    Service,
    Listener,
    Upstream,
}

pub open spec fn is_field(kind: Kind, name: Seq<char>) -> bool {
    match kind {
        Kind::Service => is_service_field(name),
        Kind::Listener => is_listener_field(name),
        Kind::Upstream => is_upstream_field(name),
    }
}

pub open spec fn kind_name(kind: Kind) -> Seq<char> {
    match kind {
        Kind::Service => "service"@,
        Kind::Listener => "listener"@,
        Kind::Upstream => "upstream"@,
    }
}

/// The sections that mean nothing here.
pub open spec fn section_warnings(root: Seq<SectionOutline>) -> Seq<Seq<char>>
    decreases root.len(),
{
    if root.len() == 0 {
        Seq::empty()
    } else {
        let before = section_warnings(root.drop_last());
        if is_section(root.last().0) {
            before
        } else {
            before.push("section ["@ + root.last().0 + "] is not supported and was ignored"@)
        }
    }
}

/// The entries of the section `name`, where it is a table.
pub open spec fn entries_of(root: Seq<SectionOutline>, name: Seq<char>) -> Seq<EntryOutline>
    decreases root.len(),
{
    if root.len() == 0 {
        Seq::empty()
    } else if root[0].0 == name {
        match root[0].1 {
            Some(entries) => entries,
            None => Seq::empty(),
        }
    } else {
        entries_of(root.drop_first(), name)
    }
}

/// The fields among `names` that mean nothing in a section of this kind.
pub open spec fn field_warnings(ctx: Seq<char>, kind: Kind, names: Seq<Seq<char>>) -> Seq<Seq<char>>
    decreases names.len(),
{
    if names.len() == 0 {
        Seq::empty()
    } else {
        let before = field_warnings(ctx, kind, names.drop_last());
        if is_field(kind, names.last()) {
            before
        } else {
            before.push(
                ctx + " field "@ + debug_text(names.last()) + " is not supported and was ignored"@,
            )
        }
    }
}

/// How messages name the section `key` of a kind.
pub open spec fn numbered_section(kind: Kind, key: Seq<char>) -> Seq<char> {
    "["@ + kind_name(kind) + "."@ + key + "]"@
}

/// The fields that mean nothing in the sections of one kind.
pub open spec fn entry_warnings(kind: Kind, entries: Seq<EntryOutline>) -> Seq<Seq<char>>
    decreases entries.len(),
{
    if entries.len() == 0 {
        Seq::empty()
    } else {
        let before = entry_warnings(kind, entries.drop_last());
        match entries.last().1 {
            Some(names) => before + field_warnings(
                numbered_section(kind, entries.last().0),
                kind,
                names,
            ),
            None => before,
        }
    }
}

/// The keys of several entries.
pub open spec fn entry_keys(entries: Seq<EntryOutline>) -> Seq<Seq<char>> {
    entries.map_values(|e: EntryOutline| e.0)
}

/// What a text holds that means nothing here.
pub open spec fn unknown_warnings(root: Seq<SectionOutline>) -> Seq<Seq<char>> {
    section_warnings(root) + field_warnings(
        "[service]"@,
        Kind::Service,
        entry_keys(entries_of(root, "service"@)),
    ) + entry_warnings(Kind::Listener, entries_of(root, "listener"@)) + entry_warnings(
        Kind::Upstream,
        entries_of(root, "upstream"@),
    )
}

fn is_known_field(kind: Kind, name: &str) -> (r: bool)
    ensures
        r == is_field(kind, name@),
{
    match kind {
        Kind::Service => same_text(name, "log_level") || same_text(name, "log_path") || same_text(
            name,
            "cache_enable",
        ) || same_text(name, "cache_size"),
        Kind::Listener => same_text(name, "ip") || same_text(name, "port"),
        Kind::Upstream => same_text(name, "name") || same_text(name, "type") || same_text(
            name,
            "endpoint",
        ) || same_text(name, "bootstrap_ip") || same_text(name, "timeout") || same_text(
            name,
            "ip_stack",
        ),
    }
}

fn warn_field(ctx: &str, kind: Kind, name: &str, warnings: &mut Vec<String>)
    ensures
        texts(final(warnings)@) == if is_field(kind, name@) {
            texts(old(warnings)@)
        } else {
            texts(old(warnings)@).push(
                ctx@ + " field "@ + debug_text(name@) + " is not supported and was ignored"@,
            )
        },
{
    if !is_known_field(kind, name) {
        let mut text: String = join3(ctx, " field ", show_debug(name).as_str());
        text.append(" is not supported and was ignored");
        warn(warnings, text);
    }
}

fn warn_fields(ctx: &str, kind: Kind, names: &Vec<String>, warnings: &mut Vec<String>)
    ensures
        texts(final(warnings)@) == texts(old(warnings)@) + field_warnings(
            ctx@,
            kind,
            texts(names@),
        ),
{
    let ghost told = texts(warnings@);
    let ghost all = texts(names@);
    let mut i: usize = 0;
    assert(told + Seq::<Seq<char>>::empty() =~= told);
    while i < names.len()
        invariant
            i <= names@.len(),
            all == texts(names@),
            texts(warnings@) == told + field_warnings(ctx@, kind, all.take(i as int)),
        decreases names@.len() - i,
    {
        proof {
            assert(all.take(i + 1).drop_last() =~= all.take(i as int));
            assert(all[i as int] == names@[i as int]@);
        }
        let ghost heard = texts(warnings@);
        warn_field(ctx, kind, names[i].as_str(), warnings);
        assert(texts(warnings@) =~= told + field_warnings(ctx@, kind, all.take(i + 1)));
        i = i + 1;
    }
    assert(all.take(i as int) =~= all);
}

fn find_section(root: &Vec<Outline>, name: &str) -> (r: Option<usize>)
    ensures
        match r {
            Some(i) => i < root@.len() && entries_of(outline_of(root@), name@) == (
            match section_outline(root@[i as int]).1 {
                Some(entries) => entries,
                None => Seq::empty(),
            }),
            None => entries_of(outline_of(root@), name@) == Seq::<EntryOutline>::empty(),
        },
{
    let ghost all = outline_of(root@);
    let mut i: usize = 0;
    assert(all.skip(0) =~= all);
    while i < root.len()
        invariant
            i <= root@.len(),
            all == outline_of(root@),
            entries_of(all, name@) == entries_of(all.skip(i as int), name@),
        decreases root@.len() - i,
    {
        proof {
            assert(all.skip(i as int)[0] == section_outline(root@[i as int]));
            assert(all.skip(i as int).drop_first() =~= all.skip(i + 1));
        }
        if same_text(root[i].0.as_str(), name) {
            return Some(i);
        }
        i = i + 1;
    }
    None
}

fn warn_entries(kind: Kind, name: &str, root: &Vec<Outline>, warnings: &mut Vec<String>)
    requires
        name@ == kind_name(kind),
        kind != Kind::Service,
    ensures
        texts(final(warnings)@) == texts(old(warnings)@) + entry_warnings(
            kind,
            entries_of(outline_of(root@), name@),
        ),
{
    let ghost told = texts(warnings@);
    let ghost all = entries_of(outline_of(root@), name@);
    assert(told + Seq::<Seq<char>>::empty() =~= told);
    let at: usize = match find_section(root, name) {
        Some(at) => at,
        None => return ,
    };
    let entries: &Vec<(String, Option<Vec<String>>)> = match &root[at].1 {
        Some(entries) => entries,
        None => return ,
    };
    let mut i: usize = 0;
    while i < entries.len()
        invariant
            i <= entries@.len(),
            name@ == kind_name(kind),
            all == entries@.map_values(|e: (String, Option<Vec<String>>)| entry_outline(e)),
            texts(warnings@) == told + entry_warnings(kind, all.take(i as int)),
        decreases entries@.len() - i,
    {
        proof {
            assert(all.take(i + 1).drop_last() =~= all.take(i as int));
            assert(all[i as int] == entry_outline(entries@[i as int]));
        }
        let ghost heard = texts(warnings@);
        match &entries[i].1 {
            Some(names) => {
                let mut ctx: String = join3("[", name, ".");
                ctx.append(entries[i].0.as_str());
                ctx.append("]");
                warn_fields(ctx.as_str(), kind, names, warnings);
            },
            None => {},
        }
        assert(texts(warnings@) =~= told + entry_warnings(kind, all.take(i + 1)));
        i = i + 1;
    }
    assert(all.take(i as int) =~= all);
}

fn warn_sections(root: &Vec<Outline>, warnings: &mut Vec<String>)
    ensures
        texts(final(warnings)@) == texts(old(warnings)@) + section_warnings(outline_of(root@)),
{
    let ghost told = texts(warnings@);
    let ghost all = outline_of(root@);
    let mut i: usize = 0;
    assert(told + Seq::<Seq<char>>::empty() =~= told);
    while i < root.len()
        invariant
            i <= root@.len(),
            all == outline_of(root@),
            texts(warnings@) == told + section_warnings(all.take(i as int)),
        decreases root@.len() - i,
    {
        proof {
            assert(all.take(i + 1).drop_last() =~= all.take(i as int));
            assert(all[i as int] == section_outline(root@[i as int]));
        }
        let name: &str = root[i].0.as_str();
        if !(same_text(name, "service") || same_text(name, "listener") || same_text(
            name,
            "upstream",
        )) {
            warn(warnings, join3("section [", name, "] is not supported and was ignored"));
        }
        assert(texts(warnings@) =~= told + section_warnings(all.take(i + 1)));
        i = i + 1;
    }
    assert(all.take(i as int) =~= all);
}

fn warn_service_fields(root: &Vec<Outline>, warnings: &mut Vec<String>)
    ensures
        texts(final(warnings)@) == texts(old(warnings)@) + field_warnings(
            "[service]"@,
            Kind::Service,
            entry_keys(entries_of(outline_of(root@), "service"@)),
        ),
{
    let ghost told = texts(warnings@);
    let ghost all = entry_keys(entries_of(outline_of(root@), "service"@));
    assert(told + Seq::<Seq<char>>::empty() =~= told);
    let at: usize = match find_section(root, "service") {
        Some(at) => at,
        None => {
            assert(all =~= Seq::<Seq<char>>::empty());
            return ;
        },
    };
    let entries: &Vec<(String, Option<Vec<String>>)> = match &root[at].1 {
        Some(entries) => entries,
        None => {
            assert(all =~= Seq::<Seq<char>>::empty());
            return ;
        },
    };
    let mut i: usize = 0;
    while i < entries.len()
        invariant
            i <= entries@.len(),
            all.len() == entries@.len(),
            forall|k: int| 0 <= k < all.len() ==> #[trigger] all[k] == entries@[k].0@,
            texts(warnings@) == told + field_warnings(
                "[service]"@,
                Kind::Service,
                all.take(i as int),
            ),
        decreases entries@.len() - i,
    {
        proof {
            assert(all.take(i + 1).drop_last() =~= all.take(i as int));
            assert(all[i as int] == entries@[i as int].0@);
        }
        warn_field("[service]", Kind::Service, entries[i].0.as_str(), warnings);
        assert(texts(warnings@) =~= told + field_warnings(
            "[service]"@,
            Kind::Service,
            all.take(i + 1),
        ));
        i = i + 1;
    }
    assert(all.take(i as int) =~= all);
}

/// Unknown or intentionally unsupported config sections/fields: warn instead
/// of silently swallowing them so migrating users know what changed.
pub fn scan_unknown(root: &Vec<Outline>, warnings: &mut Vec<String>)
    ensures
        texts(final(warnings)@) == texts(old(warnings)@) + unknown_warnings(outline_of(root@)),
{
    let ghost told = texts(warnings@);
    warn_sections(root, warnings);
    warn_service_fields(root, warnings);
    warn_entries(Kind::Listener, "listener", root, warnings);
    warn_entries(Kind::Upstream, "upstream", root, warnings);
    assert(texts(warnings@) =~= told + unknown_warnings(outline_of(root@)));
}

/// Read a TOML text and say what in it means nothing here.
pub fn inspect(text: &str) -> (r: Result<Vec<String>, String>)
    ensures
        match toml_outline(text@) {
            Ok(root) => r matches Ok(warnings) && texts(warnings@) == unknown_warnings(root),
            Err(message) => r matches Err(got) && got@ == "TOML parse error: "@ + message,
        },
{
    match read_outline(text) {
        Ok(root) => {
            let mut warnings: Vec<String> = Vec::new();
            scan_unknown(&root, &mut warnings);
            assert(texts(warnings@) =~= unknown_warnings(outline_of(root@)));
            Ok(warnings)
        },
        Err(message) => Err(join("TOML parse error: ", message.as_str())),
    }
}

/// Whether every section is known, and every field of it.
pub open spec fn is_known(root: Seq<SectionOutline>) -> bool {
    &&& forall|i: int| 0 <= i < root.len() ==> is_section((#[trigger] root[i]).0)
    &&& forall|i: int|
        0 <= i < entries_of(root, "service"@).len() ==> is_service_field(
            (#[trigger] entries_of(root, "service"@)[i]).0,
        )
    &&& fields_known(Kind::Listener, entries_of(root, "listener"@))
    &&& fields_known(Kind::Upstream, entries_of(root, "upstream"@))
}

pub open spec fn fields_known(kind: Kind, entries: Seq<EntryOutline>) -> bool {
    forall|i: int, j: int|
        #![trigger entries[i], (entries[i].1->0)[j]]
        0 <= i < entries.len() && entries[i].1 is Some && 0 <= j < (entries[i].1->0).len()
            ==> is_field(kind, (entries[i].1->0)[j])
}

/// Nothing is said about a text that holds only what is known.
pub proof fn law_known_texts_are_passed_in_silence(root: Seq<SectionOutline>)
    requires
        is_known(root),
    ensures
        unknown_warnings(root) == Seq::<Seq<char>>::empty(),
{
    lemma_no_section_warnings(root);
    let service = entries_of(root, "service"@);
    assert forall|i: int| 0 <= i < entry_keys(service).len() implies is_field(
        Kind::Service,
        #[trigger] entry_keys(service)[i],
    ) by {
        assert(entry_keys(service)[i] == service[i].0);
    }
    lemma_no_field_warnings("[service]"@, Kind::Service, entry_keys(service));
    lemma_no_entry_warnings(Kind::Listener, entries_of(root, "listener"@));
    lemma_no_entry_warnings(Kind::Upstream, entries_of(root, "upstream"@));
    assert(unknown_warnings(root) =~= Seq::<Seq<char>>::empty());
}

proof fn lemma_no_section_warnings(root: Seq<SectionOutline>)
    requires
        forall|i: int| 0 <= i < root.len() ==> is_section((#[trigger] root[i]).0),
    ensures
        section_warnings(root) == Seq::<Seq<char>>::empty(),
    decreases root.len(),
{
    if root.len() > 0 {
        lemma_no_section_warnings(root.drop_last());
        assert(is_section(root[root.len() - 1].0));
    }
}

proof fn lemma_no_field_warnings(ctx: Seq<char>, kind: Kind, names: Seq<Seq<char>>)
    requires
        forall|i: int| 0 <= i < names.len() ==> is_field(kind, #[trigger] names[i]),
    ensures
        field_warnings(ctx, kind, names) == Seq::<Seq<char>>::empty(),
    decreases names.len(),
{
    if names.len() > 0 {
        lemma_no_field_warnings(ctx, kind, names.drop_last());
        assert(is_field(kind, names[names.len() - 1]));
    }
}

proof fn lemma_no_entry_warnings(kind: Kind, entries: Seq<EntryOutline>)
    requires
        fields_known(kind, entries),
    ensures
        entry_warnings(kind, entries) == Seq::<Seq<char>>::empty(),
    decreases entries.len(),
{
    if entries.len() > 0 {
        let shorter = entries.drop_last();
        assert(fields_known(kind, shorter)) by {
            assert forall|i: int, j: int|
                #![trigger shorter[i], (shorter[i].1->0)[j]]
                0 <= i < shorter.len() && shorter[i].1 is Some && 0 <= j < (
                shorter[i].1->0).len() implies is_field(kind, (shorter[i].1->0)[j]) by {
                assert(shorter[i] == entries[i]);
            }
        }
        lemma_no_entry_warnings(kind, shorter);
        if let Some(names) = entries.last().1 {
            let last = entries.len() - 1;
            assert forall|j: int| 0 <= j < names.len() implies is_field(
                kind,
                #[trigger] names[j],
            ) by {
                assert((entries[last].1->0)[j] == names[j]);
            }
            lemma_no_field_warnings(numbered_section(kind, entries.last().0), kind, names);
        }
        assert(entry_warnings(kind, entries) =~= Seq::<Seq<char>>::empty());
    }
}

} // verus!
