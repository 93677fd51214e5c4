use igra_cli::service_notes::ServiceNotes;

#[test]
fn test_default_notes() {
    let notes = ServiceNotes::default();

    let reth_note = notes.get_note("execution-layer", "reth:latest");
    assert!(reth_note.contains("Reth"));
    assert!(reth_note.contains("EVM"));

    let kaspad_note = notes.get_note("kaspad", "kaspad:v1.0.0");
    assert!(kaspad_note.contains("Kaspa L1"));

    let unknown_note = notes.get_note("custom", "myimage:latest");
    assert!(unknown_note.contains("myimage:latest"));
}

#[test]
fn test_custom_notes() {
    let mut notes = ServiceNotes::default();
    notes.set_note("execution-layer".to_string(), "My custom note".to_string());
    let note = notes.get_note("execution-layer", "reth:latest");
    assert_eq!(note, "My custom note");
    notes.reset_to_default("execution-layer");
    let note = notes.get_note("execution-layer", "reth:latest");
    assert!(note.contains("Reth"));
}

#[test]
fn test_empty_note_removes_custom() {
    let mut notes = ServiceNotes::default();
    notes.set_note("test".to_string(), "Custom".to_string());
    assert_eq!(notes.get_note("test", "test:latest"), "Custom");
    notes.set_note("test".to_string(), "".to_string());
    let note = notes.get_note("test", "test:latest");
    assert!(note.contains("test:latest"));
}

#[test]
fn default_note_patterns_are_case_insensitive_and_ordered() {
    assert!(ServiceNotes::default_note_for_image("IGRA/GETH:1").starts_with("Geth"));
    // "reth" wins over later patterns
    assert!(ServiceNotes::default_note_for_image("reth-nginx").starts_with("Reth"));
    assert!(ServiceNotes::default_note_for_image("my-bridge").starts_with("Viaduct"));
    assert_eq!(
        ServiceNotes::default_note_for_image("alpine"),
        "Service running alpine image."
    );
    assert!(ServiceNotes::default_note_for_image("postgresql:16").starts_with("PostgreSQL"));
}
