//! The persisted settings: the vendor priority list and the first-use flag,
//! read from and written to INI text through `tini`.
use crate::gpu::texts;
use crate::vendor::{config_name, vendor_of_name, Vendor};
use crate::Error;
use tini::Error as IniError;
use tini::Ini;
use vstd::prelude::*;

verus! {

/// Declares `tini::Ini`, the parsed INI document.
#[verifier::external_type_specification]
#[verifier::external_body]
pub struct ExIni(Ini);

/// What a document holds: its sections in order of first appearance, each
/// with its keys and values in order of first appearance.
pub uninterp spec fn ini_doc(ini: Ini) -> Seq<(Seq<char>, Seq<(Seq<char>, Seq<char>)>)>;

/// The section that the next stored item goes to.
pub uninterp spec fn ini_cursor(ini: Ini) -> Seq<char>;

/// What `tini::Ini::from_string` makes of a text: the document, or none
/// when the text is rejected.
pub uninterp spec fn ini_parsed(text: Seq<char>) -> Option<
    Seq<(Seq<char>, Seq<(Seq<char>, Seq<char>)>)>,
>;

/// `entries` with `key` set to `value`: in place where the key is present,
/// appended where it is not.
pub open spec fn put_entry(entries: Seq<(Seq<char>, Seq<char>)>, key: Seq<char>, value: Seq<char>) -> Seq<
    (Seq<char>, Seq<char>),
>
    decreases entries.len(),
{
    if entries.len() == 0 {
        seq![(key, value)]
    } else if entries[0].0 == key {
        seq![(key, value)] + entries.drop_first()
    } else {
        seq![entries[0]] + put_entry(entries.drop_first(), key, value)
    }
}

/// `doc` with `key` of `section` set to `value`; a missing section is
/// appended.
pub open spec fn put_item(
    doc: Seq<(Seq<char>, Seq<(Seq<char>, Seq<char>)>)>,
    section: Seq<char>,
    key: Seq<char>,
    value: Seq<char>,
) -> Seq<(Seq<char>, Seq<(Seq<char>, Seq<char>)>)>
    decreases doc.len(),
{
    if doc.len() == 0 {
        seq![(section, seq![(key, value)])]
    } else if doc[0].0 == section {
        seq![(section, put_entry(doc[0].1, key, value))] + doc.drop_first()
    } else {
        seq![doc[0]] + put_item(doc.drop_first(), section, key, value)
    }
}

/// The value of `key` in `entries`, if present.
pub open spec fn entry_of(entries: Seq<(Seq<char>, Seq<char>)>, key: Seq<char>) -> Option<Seq<char>>
    decreases entries.len(),
{
    if entries.len() == 0 {
        None
    } else if entries[0].0 == key {
        Some(entries[0].1)
    } else {
        entry_of(entries.drop_first(), key)
    }
}

/// The value of `key` in `section` of `doc`, if present.
pub open spec fn item_of(
    doc: Seq<(Seq<char>, Seq<(Seq<char>, Seq<char>)>)>,
    section: Seq<char>,
    key: Seq<char>,
) -> Option<Seq<char>>
    decreases doc.len(),
{
    if doc.len() == 0 {
        None
    } else if doc[0].0 == section {
        entry_of(doc[0].1, key)
    } else {
        item_of(doc.drop_first(), section, key)
    }
}

/// How `bool` prints.
pub open spec fn bool_text(b: bool) -> Seq<char> {
    if b {
        "true"@
    } else {
        "false"@
    }
}

/// A stored value read as `bool`: only the exact words `true` and `false`.
pub open spec fn flag_of(v: Option<Seq<char>>) -> Option<bool> {
    match v {
        Some(t) => if t == "true"@ {
            Some(true)
        } else if t == "false"@ {
            Some(false)
        } else {
            None
        },
        None => None,
    }
}

/// The pieces of `s` between the occurrences of `sep`.
pub open spec fn split_on(s: Seq<char>, sep: char) -> Seq<Seq<char>>
    decreases s.len(),
{
    if s.len() == 0 {
        seq![Seq::<char>::empty()]
    } else {
        let rest = split_on(s.drop_first(), sep);
        if s[0] == sep {
            seq![Seq::<char>::empty()] + rest
        } else {
            rest.update(0, seq![s[0]] + rest[0])
        }
    }
}

/// Unicode `White_Space`, by which `str::trim` goes.
pub open spec fn is_white_space(c: char) -> bool {
    ('\u{9}' <= c && c <= '\u{d}') || c == ' ' || c == '\u{85}' || c == '\u{a0}' || c == '\u{1680}'
        || ('\u{2000}' <= c && c <= '\u{200a}') || c == '\u{2028}' || c == '\u{2029}' || c
        == '\u{202f}' || c == '\u{205f}' || c == '\u{3000}'
}

/// `s` without white space at either end, as `str::trim` gives it.
pub open spec fn trim_white(s: Seq<char>) -> Seq<char>
    decreases s.len(),
{
    if s.len() > 0 && is_white_space(s[0]) {
        trim_white(s.drop_first())
    } else if s.len() > 0 && is_white_space(s.last()) {
        trim_white(s.drop_last())
    } else {
        s
    }
}

/// The items of a stored list: the value split at `,`, each piece trimmed.
pub open spec fn list_items(raw: Seq<char>) -> Seq<Seq<char>> {
    split_on(raw, ',').map_values(|p: Seq<char>| trim_white(p))
}

/// `items` joined with `sep` between each two.
pub open spec fn joined(items: Seq<Seq<char>>, sep: Seq<char>) -> Seq<char>
    decreases items.len(),
{
    if items.len() == 0 {
        Seq::empty()
    } else if items.len() == 1 {
        items[0]
    } else {
        items[0] + sep + joined(items.drop_first(), sep)
    }
}

/// The lines that one section prints as: its header, one line per item,
/// then an empty line.
pub open spec fn section_lines(section: (Seq<char>, Seq<(Seq<char>, Seq<char>)>)) -> Seq<Seq<char>> {
    seq!["["@ + section.0 + "]"@] + section.1.map_values(
        |kv: (Seq<char>, Seq<char>)| kv.0 + " = "@ + kv.1,
    ) + seq![Seq::<char>::empty()]
}

pub open spec fn doc_lines(doc: Seq<(Seq<char>, Seq<(Seq<char>, Seq<char>)>)>) -> Seq<Seq<char>>
    decreases doc.len(),
{
    if doc.len() == 0 {
        Seq::empty()
    } else {
        section_lines(doc[0]) + doc_lines(doc.drop_first())
    }
}

/// The text that a document prints as.
pub open spec fn doc_text(doc: Seq<(Seq<char>, Seq<(Seq<char>, Seq<char>)>)>) -> Seq<char> {
    joined(doc_lines(doc), "\n"@)
}

/// Relies on `tini::Ini::from_string`: parses INI text; it fails exactly
/// on the texts that it rejects.
#[verifier::external_body]
fn ini_parse(text: &str) -> (r: Result<Ini, IniError>)
    ensures
        (r is Ok) == (ini_parsed(text@) is Some),
        r is Ok ==> ini_doc(r->Ok_0) == ini_parsed(text@)->Some_0,
{
    Ini::from_string(text)
}

/// Relies on `tini::Ini::get`: the stored value of `key` in `section` read
/// by `bool`'s `FromStr`.
#[verifier::external_body]
fn ini_get_flag(ini: &Ini, section: &str, key: &str) -> (r: Option<bool>)
    ensures
        r == flag_of(item_of(ini_doc(*ini), section@, key@)),
{
    ini.get::<bool>(section, key)
}

/// Relies on `tini::Ini::get_vec`: the stored value of `key` in `section`
/// split at `,`, each item trimmed; none when the key is absent.
#[verifier::external_body]
fn ini_get_list(ini: &Ini, section: &str, key: &str) -> (r: Option<Vec<String>>)
    ensures
        (r is Some) == (item_of(ini_doc(*ini), section@, key@) is Some),
        r is Some ==> texts(r->Some_0@) == list_items(item_of(ini_doc(*ini), section@, key@)->Some_0),
{
    ini.get_vec::<String>(section, key)
}

/// Relies on `tini::Ini::new`: an empty document.
#[verifier::external_body]
fn ini_new() -> (r: Ini)
    ensures
        ini_doc(r) == Seq::<(Seq<char>, Seq<(Seq<char>, Seq<char>)>)>::empty(),
        ini_cursor(r) == Seq::<char>::empty(),
{
    Ini::new()
}

/// Relies on `tini::Ini::section`: selects the section that items go to.
#[verifier::external_body]
fn ini_section(ini: Ini, name: &str) -> (r: Ini)
    ensures
        ini_doc(r) == ini_doc(ini),
        ini_cursor(r) == name@,
{
    ini.section(name)
}

/// Relies on `tini::Ini::item`: stores a flag, as `bool` prints it, under
/// `key` of the selected section.
#[verifier::external_body]
fn ini_flag(ini: Ini, key: &str, value: bool) -> (r: Ini)
    ensures
        ini_doc(r) == put_item(ini_doc(ini), ini_cursor(ini), key@, bool_text(value)),
        ini_cursor(r) == ini_cursor(ini),
{
    ini.item(key, value)
}

/// Relies on `tini::Ini::item_vec`: stores a list under `key` of the selected
/// section, its items joined by ", ".
#[verifier::external_body]
fn ini_list(ini: Ini, key: &str, items: &Vec<String>) -> (r: Ini)
    ensures
        ini_doc(r) == put_item(ini_doc(ini), ini_cursor(ini), key@, joined(texts(items@), ", "@)),
        ini_cursor(r) == ini_cursor(ini),
{
    ini.item_vec(key, items.as_slice())
}

/// Relies on the `Display` impl of `tini::Ini`: the lines of every section,
/// joined by newlines.
#[verifier::external_body]
fn ini_render(ini: &Ini) -> (r: String)
    ensures
        r@ == doc_text(ini_doc(*ini)),
{
    ini.to_string()
}

/// The priority used when the configuration names none.
pub open spec fn default_priority() -> Seq<Vendor> {
    seq![Vendor::NVIDIA, Vendor::AMD, Vendor::Intel]
}

/// The vendors that a list of stored names names, in order; names of no
/// known vendor are dropped.
pub open spec fn parsed_priority(names: Seq<Seq<char>>) -> Seq<Vendor>
    decreases names.len(),
{
    if names.len() == 0 {
        Seq::empty()
    } else {
        let p = parsed_priority(names.drop_last());
        match vendor_of_name(names.last()) {
            Some(v) => p.push(v),
            None => p,
        }
    }
}

pub open spec fn stored_names(list: Seq<Vendor>) -> Seq<Seq<char>> {
    list.map_values(|v: Vendor| config_name(v))
}

/// Storing a priority list and reading it back gives the same list.
pub proof fn lemma_priority_round_trip(list: Seq<Vendor>)
    ensures
        parsed_priority(stored_names(list)) == list,
    decreases list.len(),
{
    if list.len() > 0 {
        lemma_priority_round_trip(list.drop_last());
        assert(stored_names(list).drop_last() =~= stored_names(list.drop_last()));
        crate::vendor::lemma_config_name_round_trip(list.last());
        assert(list.drop_last().push(list.last()) =~= list);
    }
}

/// The vendors that stored names name, in order, dropping unknown names.
pub fn parse_priority(names: &Vec<String>) -> (r: Vec<Vendor>)
    ensures
        r@ == parsed_priority(texts(names@)),
{
    let mut out: Vec<Vendor> = Vec::new();
    let mut i: usize = 0;
    while i < names.len()
        invariant
            i <= names@.len(),
            out@ == parsed_priority(texts(names@.subrange(0, i as int))),
        decreases names@.len() - i,
    {
        assert(texts(names@.subrange(0, i + 1)).drop_last() =~= texts(
            names@.subrange(0, i as int),
        ));
        assert(texts(names@.subrange(0, i + 1)).last() == names@[i as int]@);
        match Vendor::from_name(names[i].as_str()) {
            Some(v) => out.push(v),
            None => {},
        }
        i = i + 1;
    }
    assert(names@.subrange(0, names@.len() as int) =~= names@);
    out
}

/// The names under which a priority list is stored.
pub fn priority_names(list: &Vec<Vendor>) -> (r: Vec<String>)
    ensures
        texts(r@) == stored_names(list@),
{
    let mut out: Vec<String> = Vec::new();
    let mut i: usize = 0;
    while i < list.len()
        invariant
            i <= list@.len(),
            texts(out@) == stored_names(list@.subrange(0, i as int)),
        decreases list@.len() - i,
    {
        let ghost before = texts(out@);
        let name = list[i].config_name();
        out.push(name);
        assert(texts(out@) =~= before.push(name@));
        assert(stored_names(list@.subrange(0, i + 1)) =~= stored_names(
            list@.subrange(0, i as int),
        ).push(config_name(list@[i as int])));
        i = i + 1;
    }
    assert(list@.subrange(0, list@.len() as int) =~= list@);
    out
}

/// A flag under `general` of a document, `true` when absent or unreadable.
pub open spec fn stored_flag(doc: Seq<(Seq<char>, Seq<(Seq<char>, Seq<char>)>)>, key: Seq<char>) -> bool {
    match flag_of(item_of(doc, "general"@, key)) {
        Some(b) => b,
        None => true,
    }
}

/// The priority list under `general` of a document: its known vendor names
/// in order, or the default list when the key is absent.
pub open spec fn stored_priority(doc: Seq<(Seq<char>, Seq<(Seq<char>, Seq<char>)>)>) -> Seq<Vendor> {
    match item_of(doc, "general"@, "gpu_priority"@) {
        Some(raw) => parsed_priority(list_items(raw)),
        None => default_priority(),
    }
}

/// The document in which a configuration is stored.
pub open spec fn saved_doc(first_use: bool, list: Seq<Vendor>, kill_on_unplug: bool) -> Seq<
    (Seq<char>, Seq<(Seq<char>, Seq<char>)>),
> {
    seq![
        ("general"@, seq![
            ("first_use"@, bool_text(first_use)),
            ("gpu_priority"@, joined(stored_names(list), ", "@)),
            ("kill_on_unplug"@, bool_text(kill_on_unplug)),
        ]),
    ]
}

/// The stored text reads: a `[general]` line, then one line for each of
/// `first_use`, `gpu_priority` (the stored names joined by ", ") and
/// `kill_on_unplug`, each line ending in a newline.
pub proof fn lemma_saved_text(first_use: bool, list: Seq<Vendor>, kill_on_unplug: bool)
    ensures
        doc_text(saved_doc(first_use, list, kill_on_unplug)) == "[general]\nfirst_use = "@
            + bool_text(first_use) + "\ngpu_priority = "@ + joined(stored_names(list), ", "@)
            + "\nkill_on_unplug = "@ + bool_text(kill_on_unplug) + "\n"@,
{
    reveal_strlit("[general]\nfirst_use = ");
    reveal_strlit("\ngpu_priority = ");
    reveal_strlit("\nkill_on_unplug = ");
    reveal_strlit("\n");
    reveal_strlit("[");
    reveal_strlit("]");
    reveal_strlit(" = ");
    reveal_strlit("general");
    reveal_strlit("first_use");
    reveal_strlit("gpu_priority");
    reveal_strlit("kill_on_unplug");
    let doc = saved_doc(first_use, list, kill_on_unplug);
    let l0 = "["@ + "general"@ + "]"@;
    let l1 = "first_use"@ + " = "@ + bool_text(first_use);
    let l2 = "gpu_priority"@ + " = "@ + joined(stored_names(list), ", "@);
    let l3 = "kill_on_unplug"@ + " = "@ + bool_text(kill_on_unplug);
    let e = Seq::<char>::empty();
    assert(doc.drop_first().len() == 0);
    assert(doc_lines(doc.drop_first()) == Seq::<Seq<char>>::empty());
    let lines = seq![l0, l1, l2, l3, e];
    assert(section_lines(doc[0]) =~= lines);
    assert(doc_lines(doc) =~= lines);
    let nl = "\n"@;
    assert(lines.drop_first().drop_first().drop_first().drop_first() =~= seq![e]);
    assert(joined(seq![e], nl) == e);
    assert(lines.drop_first().drop_first().drop_first() =~= seq![l3, e]);
    assert(joined(seq![l3, e], nl) == l3 + nl + e);
    assert(lines.drop_first().drop_first() =~= seq![l2, l3, e]);
    assert(joined(seq![l2, l3, e], nl) == l2 + nl + joined(seq![l3, e], nl));
    assert(lines.drop_first() =~= seq![l1, l2, l3, e]);
    assert(joined(seq![l1, l2, l3, e], nl) == l1 + nl + joined(seq![l2, l3, e], nl));
    assert(joined(lines, nl) == l0 + nl + joined(seq![l1, l2, l3, e], nl));
    assert(doc_text(doc) =~= "[general]\nfirst_use = "@ + bool_text(first_use) + "\ngpu_priority = "@
        + joined(stored_names(list), ", "@) + "\nkill_on_unplug = "@ + bool_text(kill_on_unplug)
        + "\n"@);
}

/// The settings of one run.
pub struct Config {
    /// Whether the welcome notice is still to be shown.
    pub first_use: bool,
    /// Vendors from most to least preferred.
    pub gpu_priority: Vec<Vendor>,
    pub kill_on_unplug: bool,
}

impl Default for Config {
    fn default() -> (r: Self)
        ensures
            r.first_use,
            r.gpu_priority@ == default_priority(),
            r.kill_on_unplug,
    {
        let gpu_priority = vec![Vendor::NVIDIA, Vendor::AMD, Vendor::Intel];
        assert(gpu_priority@ =~= default_priority());
        Config { first_use: true, gpu_priority, kill_on_unplug: true }
    }
}

impl Config {
    /// The settings from the values read under `general`; an absent value
    /// takes its default, and unknown vendor names are dropped.
    pub fn from_entries(
        first_use: Option<bool>,
        names: Option<Vec<String>>,
        kill_on_unplug: Option<bool>,
    ) -> (r: Config)
        ensures
            r.first_use == match first_use {
                Some(b) => b,
                None => true,
            },
            r.kill_on_unplug == match kill_on_unplug {
                Some(b) => b,
                None => true,
            },
            r.gpu_priority@ == match names {
                Some(ns) => parsed_priority(texts(ns@)),
                None => default_priority(),
            },
    {
        let gpu_priority = match names {
            Some(ns) => parse_priority(&ns),
            None => {
                let d = vec![Vendor::NVIDIA, Vendor::AMD, Vendor::Intel];
                assert(d@ =~= default_priority());
                d
            },
        };
        Config {
            first_use: match first_use {
                Some(b) => b,
                None => true,
            },
            gpu_priority,
            kill_on_unplug: match kill_on_unplug {
                Some(b) => b,
                None => true,
            },
        }
    }

    /// Marks the first run as done; tells whether it was the first run.
    pub fn complete_first_use(&mut self) -> (was_first: bool)
        ensures
            was_first == old(self).first_use,
            !final(self).first_use,
            final(self).gpu_priority == old(self).gpu_priority,
            final(self).kill_on_unplug == old(self).kill_on_unplug,
    {
        let was_first = self.first_use;
        self.first_use = false;
        was_first
    }

    /// Reads the settings from the text of the configuration file; fails
    /// with `Ini` when the text is no INI document.
    pub fn open(text: &str) -> (r: Result<Config, Error>)
        ensures
            (r is Ok) == (ini_parsed(text@) is Some),
            r is Err ==> r->Err_0 is Ini,
            r is Ok ==> {
                let doc = ini_parsed(text@)->Some_0;
                &&& r->Ok_0.first_use == stored_flag(doc, "first_use"@)
                &&& r->Ok_0.gpu_priority@ == stored_priority(doc)
                &&& r->Ok_0.kill_on_unplug == stored_flag(doc, "kill_on_unplug"@)
            },
    {
        let ini = match ini_parse(text) {
            Ok(ini) => ini,
            Err(e) => return Err(Error::Ini(e)),
        };
        let first_use = ini_get_flag(&ini, "general", "first_use");
        let names = ini_get_list(&ini, "general", "gpu_priority");
        let kill_on_unplug = ini_get_flag(&ini, "general", "kill_on_unplug");
        Ok(Config::from_entries(first_use, names, kill_on_unplug))
    }

    /// The text of the configuration file that stores these settings.
    pub fn save(&self) -> (r: String)
        ensures
            r@ == doc_text(saved_doc(self.first_use, self.gpu_priority@, self.kill_on_unplug)),
            r@ == "[general]\nfirst_use = "@ + bool_text(self.first_use) + "\ngpu_priority = "@
                + joined(stored_names(self.gpu_priority@), ", "@) + "\nkill_on_unplug = "@
                + bool_text(self.kill_on_unplug) + "\n"@,
    {
        let names = priority_names(&self.gpu_priority);
        let ini = ini_section(ini_new(), "general");
        let ini = ini_flag(ini, "first_use", self.first_use);
        let ini = ini_list(ini, "gpu_priority", &names);
        let ini = ini_flag(ini, "kill_on_unplug", self.kill_on_unplug);
        proof {
            reveal_strlit("first_use");
            reveal_strlit("gpu_priority");
            reveal_strlit("kill_on_unplug");
            assert("first_use"@[0] != "gpu_priority"@[0]);
            assert("first_use"@[0] != "kill_on_unplug"@[0]);
            assert("gpu_priority"@[0] != "kill_on_unplug"@[0]);
            let s0 = Seq::<(Seq<char>, Seq<char>)>::empty();
            let e1 = put_entry(s0, "first_use"@, bool_text(self.first_use));
            assert(e1 == seq![("first_use"@, bool_text(self.first_use))]);
            let e2 = put_entry(e1, "gpu_priority"@, joined(texts(names@), ", "@));
            assert(e1[0].0 != "gpu_priority"@);
            assert(e1.drop_first() =~= s0);
            assert(put_entry(e1.drop_first(), "gpu_priority"@, joined(texts(names@), ", "@)) == seq![
                ("gpu_priority"@, joined(texts(names@), ", "@)),
            ]);
            assert(e2 == seq![e1[0]] + put_entry(
                e1.drop_first(),
                "gpu_priority"@,
                joined(texts(names@), ", "@),
            ));
            assert(e2 =~= seq![e1[0], ("gpu_priority"@, joined(texts(names@), ", "@))]);
            let e3 = put_entry(e2, "kill_on_unplug"@, bool_text(self.kill_on_unplug));
            assert(e2[0].0 != "kill_on_unplug"@);
            assert(e2[1].0 != "kill_on_unplug"@);
            assert(e2.drop_first().drop_first() =~= s0);
            assert(e2.drop_first()[0] == e2[1]);
            assert(put_entry(e2.drop_first().drop_first(), "kill_on_unplug"@, bool_text(self.kill_on_unplug)) == seq![
                ("kill_on_unplug"@, bool_text(self.kill_on_unplug)),
            ]);
            assert(put_entry(e2.drop_first(), "kill_on_unplug"@, bool_text(self.kill_on_unplug))
                =~= seq![e2[1], ("kill_on_unplug"@, bool_text(self.kill_on_unplug))]);
            assert(e3 =~= seq![e2[0], e2[1], ("kill_on_unplug"@, bool_text(self.kill_on_unplug))]);
            let d0 = Seq::<(Seq<char>, Seq<(Seq<char>, Seq<char>)>)>::empty();
            let d1 = put_item(d0, "general"@, "first_use"@, bool_text(self.first_use));
            assert(d1 == seq![("general"@, e1)]);
            let d2 = put_item(d1, "general"@, "gpu_priority"@, joined(texts(names@), ", "@));
            assert(d1.drop_first() =~= d0);
            assert(d2 =~= seq![("general"@, e2)]);
            let d3 = put_item(d2, "general"@, "kill_on_unplug"@, bool_text(self.kill_on_unplug));
            assert(d2.drop_first() =~= d0);
            assert(d3 =~= seq![("general"@, e3)]);
            assert(d3 =~= saved_doc(self.first_use, self.gpu_priority@, self.kill_on_unplug));
            lemma_saved_text(self.first_use, self.gpu_priority@, self.kill_on_unplug);
        }
        ini_render(&ini)
    }
}

} // verus!
