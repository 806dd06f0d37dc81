use midi_engine::ml::context::{
    Insight, MidiMessage, ModelContext, ModelError, MusicalContext, Pattern,
};
use midi_engine::ml::pattern::{PatternRecognitionModel, PatternTrie};
use midi_engine::ml::{Model, ModelContextProtocol, ModelType};
use midi_engine::observer::MidiEngine;
use midi_engine::MidiEvent;

fn event(data: Vec<u8>) -> MidiEvent {
    MidiEvent { data, timestamp: 0, device_name: String::new() }
}

fn notes(numbers: &[u8]) -> Vec<MidiEvent> {
    numbers.iter().map(|n| event(vec![0x90, *n, 100])).collect()
}

#[test]
fn a_new_pattern_is_seen_once_and_of_unknown_kind() {
    let pattern = Pattern::new(notes(&[60, 62, 64]));
    assert_eq!(pattern.events.len(), 3);
    assert_eq!(pattern.events[1].data, vec![0x90, 62, 100]);
    assert_eq!(pattern.occurrence_count, 1);
    assert_eq!(pattern.significance_score, 0);
    assert_eq!(pattern.pattern_type, "unknown");
    assert_eq!(pattern.hash(), pattern.id);
    assert!(!pattern.is_significant());
    let other = Pattern::with_id(notes(&[1]), 42);
    assert_eq!(other.id, 42);
    assert_eq!(other.hash(), 42);
    let copy = other.clone();
    assert_eq!(copy.id, 42);
    assert_eq!(copy.events[0].data, vec![0x90, 1, 100]);
    assert_eq!(copy.pattern_type, "unknown");
}

#[test]
fn the_hash_of_a_pattern_goes_by_the_bytes_of_its_events() {
    let a = Pattern::new(notes(&[60, 62, 64]));
    let mut renamed = notes(&[60, 62, 64]);
    renamed[0].timestamp = 77;
    renamed[1].device_name = "other".to_string();
    let b = Pattern::new(renamed);
    let c = Pattern::new(notes(&[60, 62, 65]));
    let d = Pattern::new(notes(&[60, 62]));
    assert_eq!(a.id, b.id);
    assert!(a.id != c.id);
    assert!(a.id != d.id);
}

#[test]
fn an_empty_trie_finds_nothing() {
    let trie = PatternTrie::new();
    assert!(trie.find_patterns(&notes(&[60, 62, 64])).is_empty());
    assert!(trie.find_patterns(&[]).is_empty());
}

#[test]
fn adding_no_events_changes_nothing() {
    let mut trie = PatternTrie::new();
    trie.add_sequence(&[]);
    trie.add_sequence_with_id(&[], 5);
    assert!(trie.find_patterns(&notes(&[60])).is_empty());
}

#[test]
fn stored_sequences_are_found_wherever_they_begin() {
    let mut trie = PatternTrie::new();
    trie.add_sequence_with_id(&notes(&[60, 62]), 1);
    trie.add_sequence_with_id(&notes(&[62]), 2);
    trie.add_sequence_with_id(&notes(&[60, 62, 64]), 3);
    let found = trie.find_patterns(&notes(&[60, 62, 64, 60, 62]));
    let ids: Vec<u64> = found.iter().map(|p| p.id).collect();
    // From the first event: 60-62, then 60-62-64; from the second: 62;
    // from the fourth: 60-62; from the fifth: 62.
    assert_eq!(ids, vec![1, 3, 2, 1, 2]);
    assert_eq!(found[1].events.len(), 3);
    assert_eq!(found[1].events[2].data, vec![0x90, 64, 100]);
    assert_eq!(found[0].occurrence_count, 1);
}

#[test]
fn a_prefix_that_is_not_stored_is_not_found() {
    let mut trie = PatternTrie::new();
    trie.add_sequence_with_id(&notes(&[60, 62, 64]), 3);
    assert!(trie.find_patterns(&notes(&[60, 62])).is_empty());
    assert!(trie.find_patterns(&notes(&[62, 64])).is_empty());
    assert_eq!(trie.find_patterns(&notes(&[1, 60, 62, 64, 2])).len(), 1);
}

#[test]
fn a_sequence_added_again_gains_significance_up_to_ten_tenths() {
    let mut trie = PatternTrie::new();
    let run = notes(&[60, 62, 64]);
    trie.add_sequence(&run);
    let found = trie.find_patterns(&run);
    assert_eq!(found.len(), 1);
    assert_eq!(found[0].occurrence_count, 1);
    assert_eq!(found[0].significance_score, 0);
    trie.add_sequence(&run);
    let found = trie.find_patterns(&run);
    assert_eq!(found.len(), 1);
    assert_eq!(found[0].occurrence_count, 2);
    assert_eq!(found[0].significance_score, 2);
    assert!(!found[0].is_significant());
    for _ in 0..4 {
        trie.add_sequence(&run);
    }
    let found = trie.find_patterns(&run);
    assert_eq!(found[0].occurrence_count, 6);
    assert_eq!(found[0].significance_score, 6);
    assert!(found[0].is_significant());
    for _ in 0..10 {
        trie.add_sequence(&run);
    }
    let found = trie.find_patterns(&run);
    assert_eq!(found[0].occurrence_count, 16);
    assert_eq!(found[0].significance_score, 10);
}

#[test]
fn a_known_identifier_is_counted_whatever_the_events() {
    let mut trie = PatternTrie::new();
    trie.add_sequence_with_id(&notes(&[60]), 9);
    trie.add_sequence_with_id(&notes(&[61, 62]), 9);
    assert!(trie.find_patterns(&notes(&[61, 62])).is_empty());
    let found = trie.find_patterns(&notes(&[60]));
    assert_eq!(found.len(), 1);
    assert_eq!(found[0].occurrence_count, 2);
    assert_eq!(found[0].events.len(), 1);
}

#[test]
fn the_model_starts_empty_and_takes_settings() {
    let mut model = PatternRecognitionModel::new();
    assert!(model.patterns().is_empty());
    model.set_min_pattern_length(2);
    model.set_max_pattern_length(8);
    let context = MusicalContext::new();
    assert!(model.generate_insights(&context).is_empty());
}

#[test]
fn the_model_detects_on_note_events_only() {
    let mut model = PatternRecognitionModel::new();
    let context = MusicalContext::new();
    model.process_event(&event(vec![0xB0, 1, 2]), &context);
    model.process_event(&event(vec![0xF8]), &context);
    model.process_event(&event(vec![]), &context);
    assert!(model.patterns().is_empty());
    model.process_event(&event(vec![0x90, 60, 100]), &context);
    assert_eq!(model.patterns().len(), 1);
    assert!(model.patterns()[0].events.is_empty());
    assert_eq!(model.patterns()[0].occurrence_count, 1);
    model.process_event(&event(vec![0x80, 60, 0]), &context);
    assert_eq!(model.patterns().len(), 1);
    for i in 0..300u32 {
        model.process_event(&event(vec![0x90, (i % 128) as u8, 1]), &context);
    }
    assert_eq!(model.patterns().len(), 1);
    assert!(model.generate_insights(&context).is_empty());
}

#[test]
fn the_model_reads_the_note_messages_of_a_context() {
    let mut context = MusicalContext::new();
    context.update(MidiMessage::NoteOn { channel: 0, note: 60, velocity: 100 });
    context.update(MidiMessage::ControlChange { channel: 0, controller: 1, value: 2 });
    context.update(MidiMessage::NoteOff { channel: 0, note: 60, velocity: 0 });
    let mut model = PatternRecognitionModel::new();
    model.update(&context);
    assert_eq!(model.patterns().len(), 1);
    assert!(model.patterns()[0].events.is_empty());
}

#[test]
fn the_context_gives_an_insight_for_each_significant_pattern() {
    let mut context = ModelContext::new();
    assert!(context.generate_insights().is_empty());
    let mut weak = Pattern::with_id(notes(&[60]), 1);
    weak.significance_score = 5;
    let mut strong = Pattern::with_id(notes(&[61, 62]), 2);
    strong.significance_score = 6;
    let mut full = Pattern::with_id(notes(&[63]), 3);
    full.significance_score = 10;
    context.patterns.push(weak);
    context.patterns.push(strong);
    context.patterns.push(full);
    let insights = context.generate_insights();
    assert_eq!(insights.len(), 2);
    match &insights[0] {
        Insight::Pattern(p) => {
            assert_eq!(p.id, 2);
            assert_eq!(p.events.len(), 2);
        }
        other => panic!("expected a pattern, got {:?}", other),
    }
    assert!(matches!(&insights[1], Insight::Pattern(p) if p.id == 3));
}

#[test]
fn the_context_takes_events_as_note_ons_and_hands_them_to_its_model() {
    let mut context = ModelContext::new();
    context.add_event(event(vec![0x93, 60, 100]));
    assert_eq!(context.recent_events.len(), 1);
    assert_eq!(context.musical_context.active_notes()[60], Some(100));
    assert!(matches!(
        context.musical_context.messages()[0],
        MidiMessage::NoteOn { channel: 3, note: 60, velocity: 100 }
    ));
    // Whatever the status byte, the event counts as a note-on.
    context.add_event(event(vec![0xB0, 61, 7, 9]));
    assert_eq!(context.musical_context.active_notes()[61], Some(7));
    context.add_event(event(vec![0x90, 60, 0]));
    assert_eq!(context.musical_context.active_notes()[60], None);

    context.model = Some(Model::PatternRecognition(PatternRecognitionModel::new()));
    context.add_event(event(vec![0xB0, 62, 7]));
    match &context.model {
        Some(Model::PatternRecognition(model)) => assert!(model.patterns().is_empty()),
        None => panic!("the model is gone"),
    }
    context.add_event(event(vec![0x90, 62, 7]));
    match &context.model {
        Some(Model::PatternRecognition(model)) => assert_eq!(model.patterns().len(), 1),
        None => panic!("the model is gone"),
    }
    assert!(context.generate_insights().is_empty());
}

#[test]
fn the_context_keeps_the_newest_thousand_events() {
    let mut context = ModelContext::new();
    for i in 0..1003u32 {
        context.add_event(event(vec![0x90, (i % 128) as u8, (i / 128) as u8 + 1]));
    }
    assert_eq!(context.recent_events.len(), 1000);
    assert_eq!(context.recent_events[0].data, vec![0x90, 3, 1]);
    assert_eq!(context.recent_events[999].data, vec![0x90, (1002 % 128) as u8, 8]);
}

#[test]
fn only_pattern_recognition_can_be_loaded() {
    let mut protocol = ModelContextProtocol::new();
    assert!(matches!(
        protocol.activate_model("pattern_recognition"),
        Err(ModelError::ModelNotFound)
    ));
    assert!(protocol.load_model(ModelType::PatternRecognition).is_ok());
    assert!(protocol.activate_model("pattern_recognition").is_ok());
    assert!(matches!(protocol.activate_model("style"), Err(ModelError::ModelNotFound)));
    match protocol.load_model(ModelType::StyleClassification) {
        Err(ModelError::LoadFailed(text)) => {
            assert_eq!(text, "Style classification not implemented yet")
        }
        other => panic!("expected a load failure, got {:?}", other),
    }
    match protocol.load_model(ModelType::PerformanceAnalysis) {
        Err(e) => assert_eq!(
            e.message(),
            "Failed to load model: Performance analysis not implemented yet"
        ),
        Ok(()) => panic!("expected a load failure"),
    }
    assert!(protocol.load_model(ModelType::PatternRecognition).is_ok());
}

#[test]
fn models_are_registered_by_name_and_replaced_by_name() {
    let mut protocol = ModelContextProtocol::new();
    protocol.register_model("mine", Model::PatternRecognition(PatternRecognitionModel::new()));
    assert!(protocol.activate_model("mine").is_ok());
    assert!(matches!(protocol.activate_model("Mine"), Err(ModelError::ModelNotFound)));
    protocol.register_model("other", Model::PatternRecognition(PatternRecognitionModel::new()));
    protocol.register_model("mine", Model::PatternRecognition(PatternRecognitionModel::new()));
    assert!(protocol.activate_model("mine").is_ok());
    assert!(protocol.activate_model("other").is_ok());
    protocol.process_event(event(vec![0x90, 60, 100]));
    assert!(protocol.generate_insights().is_empty());
}

#[test]
fn the_observer_keeps_what_it_is_handed() {
    let mut engine = MidiEngine::new();
    assert!(engine.messages.is_empty());
    engine.process_message(&[0x90, 60, 100], 5);
    engine.process_message(&[0xF8], 6);
    assert_eq!(engine.messages.len(), 2);
    assert_eq!(engine.messages[0].data, vec![0x90, 60, 100]);
    assert_eq!(engine.messages[0].timestamp, 5);
    assert_eq!(engine.messages[1].data, vec![0xF8]);
    assert_eq!(engine.messages[1].timestamp, 6);
    engine.clear();
    assert!(engine.messages.is_empty());
}
