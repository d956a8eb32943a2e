//! What a CLAP preset discovery provider reports to the host's metadata
//! receiver for each preset. The calls into the host are made by the FFI glue;
//! this module decides which calls, with which text.

use vstd::prelude::*;

use crate::plugin::clap::ClapPresetEntry;

verus! {

broadcast use vstd::string::axiom_spec_iter;

/// Whether `s` holds a NUL character, which a C string cannot carry.
pub open spec fn holds_nul(s: Seq<char>) -> bool {
    s.contains('\0')
}

/// The text a C string made from `s` carries: `s` itself, or the empty string
/// when `s` holds a NUL character.
pub open spec fn c_text(s: Seq<char>) -> Seq<char> {
    if holds_nul(s) {
        Seq::empty()
    } else {
        s
    }
}

/// Whether `s` holds a NUL character.
pub fn has_nul(s: &str) -> (b: bool)
    ensures
        b == holds_nul(s@),
{
    for c in it: s.chars()
        invariant
            it.seq() == s@,
            forall|i: int| 0 <= i < it.index() ==> it.seq()[i] != '\0',
    {
        if c == '\0' {
            return true;
        }
    }
    false
}


/// The text of `s` as a C string carries it.
fn c_text_of(s: &str) -> (r: String)
    ensures
        r@ == c_text(s@),
{
    if has_nul(s) {
        String::new()
    } else {
        s.to_owned()
    }
}

/// A call the provider makes on the host's metadata receiver for a preset the
/// host has accepted through `begin_preset`.
#[derive(Debug, Clone, PartialEq, Eq)]
pub enum MetadataCall {
    /// `add_plugin_id`, with the plugin's CLAP ID.
    AddPluginId,
    /// `set_flags`.
    SetFlags(u32),
    /// `add_creator`.
    AddCreator(String),
    /// `set_description`.
    SetDescription(String),
}

/// A `MetadataCall` with its text as a sequence of characters.
pub enum MetadataCallView {
    AddPluginId,
    SetFlags(u32),
    AddCreator(Seq<char>),
    SetDescription(Seq<char>),
}

impl View for MetadataCall {
    type V = MetadataCallView;

    open spec fn view(&self) -> MetadataCallView {
        match self {
            MetadataCall::AddPluginId => MetadataCallView::AddPluginId,
            MetadataCall::SetFlags(flags) => MetadataCallView::SetFlags(*flags),
            MetadataCall::AddCreator(creator) => MetadataCallView::AddCreator(creator@),
            MetadataCall::SetDescription(description) => MetadataCallView::SetDescription(
                description@,
            ),
        }
    }
}

/// What the provider reports for one preset: the name and load key it opens
/// the preset with, and the calls it makes once the host accepts it.
#[derive(Debug)]
pub struct PresetMetadata {
    pub name: String,
    pub load_key: String,
    pub calls: Vec<MetadataCall>,
}

/// The calls for an accepted preset: the plugin ID, the flags, then the
/// creator and the description where the entry has them and they can be C
/// strings.
pub open spec fn spec_metadata_calls(entry: ClapPresetEntry) -> Seq<MetadataCallView> {
    let base = seq![MetadataCallView::AddPluginId, MetadataCallView::SetFlags(entry.flags)];
    let with_creator = if entry.creator is Some && !holds_nul(entry.creator->0@) {
        base.push(MetadataCallView::AddCreator(entry.creator->0@))
    } else {
        base
    };
    if entry.description is Some && !holds_nul(entry.description->0@) {
        with_creator.push(MetadataCallView::SetDescription(entry.description->0@))
    } else {
        with_creator
    }
}

/// Whether `metadata` is what the provider reports for `entry`: the name and
/// load key as C strings carry them (empty when they hold a NUL character),
/// and the calls of `spec_metadata_calls`.
pub open spec fn reports(entry: ClapPresetEntry, metadata: PresetMetadata) -> bool {
    &&& metadata.name@ == c_text(entry.name@)
    &&& metadata.load_key@ == c_text(entry.load_key@)
    &&& metadata.calls@.len() == spec_metadata_calls(entry).len()
    &&& forall|i: int|
        0 <= i < metadata.calls@.len() ==> #[trigger] metadata.calls@[i]@
            == spec_metadata_calls(entry)[i]
}

/// What the provider reports for one preset entry.
pub fn preset_metadata(entry: &ClapPresetEntry) -> (metadata: PresetMetadata)
    ensures
        reports(*entry, metadata),
{
    let name = c_text_of(entry.name.as_str());
    let load_key = c_text_of(entry.load_key.as_str());
    let mut calls: Vec<MetadataCall> = Vec::new();
    calls.push(MetadataCall::AddPluginId);
    calls.push(MetadataCall::SetFlags(entry.flags));
    let ghost base = seq![MetadataCallView::AddPluginId, MetadataCallView::SetFlags(entry.flags)];
    assert(calls@.map_values(|c: MetadataCall| c@) =~= base);
    match &entry.creator {
        Some(creator) => {
            if !has_nul(creator.as_str()) {
                calls.push(MetadataCall::AddCreator(creator.clone()));
            }
        },
        None => {},
    }
    let ghost with_creator = calls@.map_values(|c: MetadataCall| c@);
    assert(with_creator =~= (if entry.creator is Some && !holds_nul(entry.creator->0@) {
        base.push(MetadataCallView::AddCreator(entry.creator->0@))
    } else {
        base
    }));
    match &entry.description {
        Some(description) => {
            if !has_nul(description.as_str()) {
                calls.push(MetadataCall::SetDescription(description.clone()));
            }
        },
        None => {},
    }
    assert(calls@.map_values(|c: MetadataCall| c@) =~= spec_metadata_calls(*entry));
    PresetMetadata { name, load_key, calls }
}

/// The calls the provider makes for a preset after opening it with
/// `begin_preset`: all of them when the host accepted it (`Some(true)`) or has
/// no `begin_preset` callback (`None`), and none when the host rejected it
/// (`Some(false)`).
pub fn calls_after_begin(preset: PresetMetadata, begin_result: Option<bool>) -> (calls: Vec<
    MetadataCall,
>)
    ensures
        begin_result == Some(false) ==> calls@.len() == 0,
        begin_result != Some(false) ==> calls@ == preset.calls@,
{
    match begin_result {
        Some(false) => Vec::new(),
        _ => preset.calls,
    }
}

/// What the provider reports for each of `entries`, in order.
pub fn provider_metadata(entries: &Vec<ClapPresetEntry>) -> (metadata: Vec<PresetMetadata>)
    ensures
        metadata@.len() == entries@.len(),
        forall|i: int| 0 <= i < entries@.len() ==> reports(entries@[i], #[trigger] metadata@[i]),
{
    let mut metadata: Vec<PresetMetadata> = Vec::new();
    for i in 0..entries.len()
        invariant
            metadata@.len() == i,
            forall|j: int| 0 <= j < i ==> reports(entries@[j], #[trigger] metadata@[j]),
    {
        metadata.push(preset_metadata(&entries[i]));
    }
    metadata
}


/// How many providers the preset discovery factory offers: one when the plugin
/// has a preset discovery, none otherwise.
pub fn provider_count(has_discovery: bool) -> (count: u32)
    ensures
        count == if has_discovery { 1u32 } else { 0u32 },
{
    if has_discovery {
        1
    } else {
        0
    }
}

/// The texts `(id, name, vendor)` of the factory's provider descriptor at
/// `index`. Only index 0 has a descriptor; its texts are the discovery's, or
/// empty when the plugin has no preset discovery.
pub fn descriptor_texts(index: u32, discovery: Option<(&str, &str, &str)>) -> (texts: Option<
    (String, String, String),
>)
    ensures
        index != 0 ==> texts is None,
        index == 0 ==> texts is Some,
        texts matches Some(t) ==> match discovery {
            Some(d) => t.0@ == d.0@ && t.1@ == d.1@ && t.2@ == d.2@,
            None => t.0@.len() == 0 && t.1@.len() == 0 && t.2@.len() == 0,
        },
{
    if index != 0 {
        return None;
    }
    match discovery {
        Some((id, name, vendor)) => Some((id.to_owned(), name.to_owned(), vendor.to_owned())),
        None => Some((String::new(), String::new(), String::new())),
    }
}

/// Whether the factory creates a provider: only with an indexer to report to
/// and a preset discovery to report from.
pub fn creates_provider(has_indexer: bool, has_discovery: bool) -> (creates: bool)
    ensures
        creates == (has_indexer && has_discovery),
{
    has_indexer && has_discovery
}


/// A text holds a NUL exactly when one of its characters is `'\0'`; every
/// other character, ASCII or not, leaves it fit for a C string.
pub proof fn law_nul_is_only_the_nul_character(s: Seq<char>)
    ensures
        holds_nul(s) <==> exists|i: int| 0 <= i < s.len() && s[i] == '\0',
{
    if holds_nul(s) {
        let i = choose|i: int| 0 <= i < s.len() && s[i] == '\0';
        assert(0 <= i < s.len() && s[i] == '\0');
    }
    if exists|i: int| 0 <= i < s.len() && s[i] == '\0' {
        let i = choose|i: int| 0 <= i < s.len() && s[i] == '\0';
        assert(s.contains(s[i]));
    }
}

/// The name and load key a preset is opened with are the entry's own, unless
/// they contain a `'\0'` character, in which case they are empty.
pub proof fn law_metadata_text(entry: ClapPresetEntry, metadata: PresetMetadata)
    requires
        reports(entry, metadata),
    ensures
        (forall|i: int| 0 <= i < entry.name@.len() ==> entry.name@[i] != '\0')
            ==> metadata.name@ == entry.name@,
        (exists|i: int| 0 <= i < entry.name@.len() && entry.name@[i] == '\0')
            ==> metadata.name@.len() == 0,
        (forall|i: int| 0 <= i < entry.load_key@.len() ==> entry.load_key@[i] != '\0')
            ==> metadata.load_key@ == entry.load_key@,
        (exists|i: int| 0 <= i < entry.load_key@.len() && entry.load_key@[i] == '\0')
            ==> metadata.load_key@.len() == 0,
{
    law_nul_is_only_the_nul_character(entry.name@);
    law_nul_is_only_the_nul_character(entry.load_key@);
}

/// The calls for an accepted preset: first the plugin ID, then the entry's
/// flags unchanged, then the creator exactly when the entry has one free of
/// `'\0'`, then the description exactly when the entry has one free of `'\0'`
/// (whether or not there is a creator), and nothing else.
pub proof fn law_metadata_calls(entry: ClapPresetEntry, metadata: PresetMetadata)
    requires
        reports(entry, metadata),
    ensures
        ({
            let calls = metadata.calls@;
            let creator_sent = entry.creator is Some && forall|i: int|
                0 <= i < entry.creator->0@.len() ==> entry.creator->0@[i] != '\0';
            let description_sent = entry.description is Some && forall|i: int|
                0 <= i < entry.description->0@.len() ==> entry.description->0@[i] != '\0';
            &&& calls.len() == 2 + (if creator_sent { 1int } else { 0int }) + (if description_sent {
                1int
            } else {
                0int
            })
            &&& calls[0]@ == MetadataCallView::AddPluginId
            &&& calls[1]@ == MetadataCallView::SetFlags(entry.flags)
            &&& creator_sent ==> calls[2]@ == MetadataCallView::AddCreator(entry.creator->0@)
            &&& description_sent ==> calls[calls.len() - 1]@ == MetadataCallView::SetDescription(
                entry.description->0@,
            )
        }),
{
    if entry.creator is Some {
        law_nul_is_only_the_nul_character(entry.creator->0@);
    }
    if entry.description is Some {
        law_nul_is_only_the_nul_character(entry.description->0@);
    }
    let calls = metadata.calls@;
    assert(calls[0]@ == spec_metadata_calls(entry)[0]);
    assert(calls[1]@ == spec_metadata_calls(entry)[1]);
    if calls.len() > 2 {
        assert(calls[2]@ == spec_metadata_calls(entry)[2]);
    }
    assert(calls[calls.len() - 1]@ == spec_metadata_calls(entry)[calls.len() - 1]);
}

} // verus!
