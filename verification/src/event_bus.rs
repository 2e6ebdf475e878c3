//! The events the tools publish on the app's event bus.
use vstd::prelude::*;

verus! {

/// How many events the bus buffers for a slow subscriber.
pub const CHANNEL_CAPACITY: usize = 128;

/// Something that happened in one of the tools.
#[derive(Clone, Debug)]
pub enum Event {
    OcrCompleted { text: String, source: String },
    TranscriptionCompleted { text: String, language: String },
    ClipboardChanged { content: String, content_type: String },
    NoteCreated { id: String, title: String },
    NoteUpdated { id: String },
    TranslationCompleted { original: String, translated: String, target_lang: String },
    RecordingStarted { recording_type: String },
    RecordingStopped { file_path: String },
}

} // verus!
