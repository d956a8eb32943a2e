use nih_plug::plugin::clap::{ClapPresetDiscovery, ClapPresetEntry, PolyModulationConfig};
use nih_plug::wrapper::clap::preset_discovery::{
    calls_after_begin, creates_provider, descriptor_texts, has_nul, preset_metadata,
    provider_count, provider_metadata, MetadataCall,
};
use nih_plug::wrapper::standalone::backend::RunOutcome;

fn entry(name: &str, load_key: &str, creator: Option<&str>, description: Option<&str>) -> ClapPresetEntry {
    ClapPresetEntry {
        name: name.to_string(),
        load_key: load_key.to_string(),
        creator: creator.map(|c| c.to_string()),
        description: description.map(|d| d.to_string()),
        flags: 3,
    }
}

struct Bank;

impl ClapPresetDiscovery for Bank {
    fn provider_id(&self) -> &str {
        "com.example.bank"
    }

    fn provider_name(&self) -> &str {
        "Example Bank"
    }

    fn provider_vendor(&self) -> &str {
        "Example"
    }

    fn enumerate_presets(&self) -> Vec<ClapPresetEntry> {
        vec![
            entry("Init", "init", None, None),
            entry("Pad", "pad", Some("Ann"), Some("Soft pad")),
        ]
    }
}

#[test]
fn nul_characters_are_found() {
    assert!(!has_nul(""));
    assert!(!has_nul("plain"));
    assert!(has_nul("a\0b"));
    assert!(has_nul("\0"));
    assert!(has_nul("tail\0"));
}

#[test]
fn a_full_entry_reports_every_call() {
    let metadata = preset_metadata(&entry("Pad", "pad", Some("Ann"), Some("Soft pad")));
    assert_eq!(metadata.name, "Pad");
    assert_eq!(metadata.load_key, "pad");
    assert_eq!(
        metadata.calls,
        vec![
            MetadataCall::AddPluginId,
            MetadataCall::SetFlags(3),
            MetadataCall::AddCreator("Ann".to_string()),
            MetadataCall::SetDescription("Soft pad".to_string()),
        ]
    );
}

#[test]
fn a_bare_entry_reports_id_and_flags() {
    let metadata = preset_metadata(&entry("Init", "init", None, None));
    assert_eq!(metadata.calls, vec![MetadataCall::AddPluginId, MetadataCall::SetFlags(3)]);
}

#[test]
fn nul_in_name_or_load_key_gives_empty_text() {
    let metadata = preset_metadata(&entry("Pa\0d", "pa\0d", None, None));
    assert_eq!(metadata.name, "");
    assert_eq!(metadata.load_key, "");
    assert_eq!(metadata.calls.len(), 2);
}

#[test]
fn nul_in_creator_or_description_drops_the_call() {
    let metadata = preset_metadata(&entry("Pad", "pad", Some("A\0nn"), Some("Soft pad")));
    assert_eq!(
        metadata.calls,
        vec![
            MetadataCall::AddPluginId,
            MetadataCall::SetFlags(3),
            MetadataCall::SetDescription("Soft pad".to_string()),
        ]
    );
    let metadata = preset_metadata(&entry("Pad", "pad", Some("Ann"), Some("\0")));
    assert_eq!(
        metadata.calls,
        vec![
            MetadataCall::AddPluginId,
            MetadataCall::SetFlags(3),
            MetadataCall::AddCreator("Ann".to_string()),
        ]
    );
}

#[test]
fn a_provider_reports_its_presets_in_order() {
    let bank = Bank;
    assert_eq!(bank.provider_id(), "com.example.bank");
    let metadata = provider_metadata(&bank.enumerate_presets());
    assert_eq!(metadata.len(), 2);
    assert_eq!(metadata[0].name, "Init");
    assert_eq!(metadata[0].calls.len(), 2);
    assert_eq!(metadata[1].name, "Pad");
    assert_eq!(metadata[1].calls.len(), 4);
    assert!(provider_metadata(&Vec::new()).is_empty());
}

#[test]
fn poly_modulation_config_holds_its_settings() {
    let config = PolyModulationConfig {
        max_voice_capacity: 16,
        supports_overlapping_voices: true,
    };
    assert_eq!(config.max_voice_capacity, 16);
    assert!(config.supports_overlapping_voices);
}

#[test]
fn run_outcomes_compare_by_variant() {
    assert_eq!(RunOutcome::Stopped, RunOutcome::Stopped);
    assert_ne!(RunOutcome::Stopped, RunOutcome::StreamFailed);
}

#[test]
fn rejected_presets_get_no_calls() {
    let pad = || preset_metadata(&entry("Pad", "pad", Some("Ann"), None));
    assert!(calls_after_begin(pad(), Some(false)).is_empty());
    assert_eq!(calls_after_begin(pad(), Some(true)), pad().calls);
    assert_eq!(calls_after_begin(pad(), None), pad().calls);
    assert_eq!(calls_after_begin(pad(), None).len(), 3);
}

#[test]
fn the_factory_offers_one_provider_with_a_discovery() {
    assert_eq!(provider_count(true), 1);
    assert_eq!(provider_count(false), 0);
}

#[test]
fn only_index_zero_has_a_descriptor() {
    let bank = Bank;
    let texts = (bank.provider_id(), bank.provider_name(), bank.provider_vendor());
    assert_eq!(
        descriptor_texts(0, Some(texts)),
        Some((
            "com.example.bank".to_string(),
            "Example Bank".to_string(),
            "Example".to_string()
        ))
    );
    assert_eq!(descriptor_texts(0, None), Some((String::new(), String::new(), String::new())));
    assert_eq!(descriptor_texts(1, Some(texts)), None);
    assert_eq!(descriptor_texts(7, None), None);
}

#[test]
fn providers_need_an_indexer_and_a_discovery() {
    assert!(creates_provider(true, true));
    assert!(!creates_provider(false, true));
    assert!(!creates_provider(true, false));
    assert!(!creates_provider(false, false));
}
