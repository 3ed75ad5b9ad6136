//! The transcription request to the local speech server: where it goes and
//! which form fields it carries, and the text taken from the reply. The
//! multipart upload itself is the caller's.

use vstd::prelude::*;
use crate::text::{chars_of, push_str, slice_to, string_of, trim, trim_of};

verus! {

/// The settings of a transcription request.
#[derive(Debug, Clone)]
pub struct Transcriber {
    pub server_url: String,
    pub model: String,
    pub language: Option<String>,
    pub automatic_punctuation: bool,
}

/// `s` without any trailing `'/'` (`trim_end_matches('/')`).
pub open spec fn without_trailing_slashes(s: Seq<char>) -> Seq<char>
    decreases s.len(),
{
    if s.len() > 0 && s.last() == '/' {
        without_trailing_slashes(s.drop_last())
    } else {
        s
    }
}

impl Transcriber {
    pub fn new(server_url: &str, model: &str, language: &str, automatic_punctuation: bool) -> (t: Self)
        ensures
            t.server_url@ == without_trailing_slashes(server_url@),
            t.model@ == model@,
            language@.len() == 0 ==> t.language is None,
            language@.len() > 0 ==> t.language is Some && t.language->0@ == language@,
            t.automatic_punctuation == automatic_punctuation,
    {
        let u = chars_of(server_url);
        let mut j = u.len();
        assert(u@.take(j as int) =~= u@);
        while j > 0 && u[j - 1] == '/'
            invariant
                j <= u.len(),
                u@ == server_url@,
                without_trailing_slashes(u@) == without_trailing_slashes(u@.take(j as int)),
            decreases j,
        {
            assert(u@.take(j as int).drop_last() =~= u@.take(j as int - 1));
            j = j - 1;
        }
        let lang = chars_of(language);
        Transcriber {
            server_url: string_of(slice_to(u.as_slice(), j).as_slice()),
            model: string_of(chars_of(model).as_slice()),
            language: if lang.len() == 0 {
                None
            } else {
                Some(string_of(lang.as_slice()))
            },
            automatic_punctuation,
        }
    }

    /// The URL the audio is posted to.
    pub fn endpoint(&self) -> (u: String)
        ensures
            u@ == self.server_url@ + "/audio/transcriptions"@,
    {
        let mut u = string_of(chars_of(self.server_url.as_str()).as_slice());
        push_str(&mut u, "/audio/transcriptions");
        u
    }

    /// The text fields of the form, in order, beside the audio file part:
    /// the model, whether to punctuate, and the language when one is set.
    pub fn form_fields(&self) -> (f: Vec<(String, String)>)
        ensures
            f@.len() == if self.language is Some { 3nat } else { 2nat },
            f@[0].0@ == "model"@ && f@[0].1@ == self.model@,
            f@[1].0@ == "automatic_punctuation"@ && f@[1].1@ == (if self.automatic_punctuation {
                "true"@
            } else {
                "false"@
            }),
            self.language is Some ==> f@[2].0@ == "language"@ && f@[2].1@ == self.language->0@,
    {
        let mut f: Vec<(String, String)> = Vec::new();
        f.push((string_of(chars_of("model").as_slice()), string_of(chars_of(self.model.as_str()).as_slice())));
        let punct = if self.automatic_punctuation {
            "true"
        } else {
            "false"
        };
        f.push((string_of(chars_of("automatic_punctuation").as_slice()), string_of(chars_of(punct).as_slice())));
        match &self.language {
            Some(l) => {
                f.push((string_of(chars_of("language").as_slice()), string_of(chars_of(l.as_str()).as_slice())));
            },
            None => {},
        }
        f
    }
}

/// The transcript taken from the server's `text` field: trimmed.
pub fn transcript_text(text: &str) -> (r: String)
    ensures
        r@ == trim(text@),
{
    string_of(trim_of(chars_of(text).as_slice()).as_slice())
}

} // verus!
