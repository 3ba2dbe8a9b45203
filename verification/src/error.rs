//! Domain errors of the Showtime core.

use vstd::prelude::*;

verus! {

/// Domain errors of the application.
///
/// Every variant carries the human-readable detail as text; the I/O and
/// serialization variants hold the message of the underlying error.
#[derive(Debug)]
pub enum ShowtimeError {
    /// Failure while decoding an audio file.
    AudioDecode(String),
    /// File not found or not accessible.
    FileNotFound(String),
    /// I/O failure.
    Io(String),
    /// JSON serialization failure.
    SerdeJson(String),
    /// YAML serialization failure.
    SerdeYaml(String),
    /// Invalid timecode (HH:MM:SS:FF format or values out of range).
    InvalidTimecode(String),
    /// MIDI failure (device, sending).
    Midi(String),
    /// Network failure (TCP to the GrandMA2).
    Network(String),
}

impl ShowtimeError {
    /// The user-facing text of the error: a fixed prefix per variant followed
    /// by the detail.
    pub open spec fn message(&self) -> Seq<char> {
        match self {
            ShowtimeError::AudioDecode(m) => "erro de decodificação de áudio: "@ + m@,
            ShowtimeError::FileNotFound(m) => "arquivo não encontrado: "@ + m@,
            ShowtimeError::Io(m) => "erro de I/O: "@ + m@,
            ShowtimeError::SerdeJson(m) => "erro de serialização JSON: "@ + m@,
            ShowtimeError::SerdeYaml(m) => "erro de serialização YAML: "@ + m@,
            ShowtimeError::InvalidTimecode(m) => "timecode inválido: "@ + m@,
            ShowtimeError::Midi(m) => "erro MIDI: "@ + m@,
            ShowtimeError::Network(m) => "erro de rede: "@ + m@,
        }
    }

    /// Renders the error as the text shown to the user.
    pub fn to_string(&self) -> (r: String)
        ensures
            r@ == self.message(),
    {
        let (prefix, detail) = match self {
            ShowtimeError::AudioDecode(m) => (String::from_str("erro de decodificação de áudio: "), m),
            ShowtimeError::FileNotFound(m) => (String::from_str("arquivo não encontrado: "), m),
            ShowtimeError::Io(m) => (String::from_str("erro de I/O: "), m),
            ShowtimeError::SerdeJson(m) => (String::from_str("erro de serialização JSON: "), m),
            ShowtimeError::SerdeYaml(m) => (String::from_str("erro de serialização YAML: "), m),
            ShowtimeError::InvalidTimecode(m) => (String::from_str("timecode inválido: "), m),
            ShowtimeError::Midi(m) => (String::from_str("erro MIDI: "), m),
            ShowtimeError::Network(m) => (String::from_str("erro de rede: "), m),
        };
        let mut out = prefix;
        out.append(detail.as_str());
        out
    }
}

} // verus!
