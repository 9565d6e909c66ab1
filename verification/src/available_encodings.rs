//! The content encodings that a deployment offers, and the file extension
//! under which the variant of a file in each encoding is stored.
use vstd::prelude::*;
use crate::text::{to_chars, window_is};

verus! {

/// Which of the four known content encodings a deployment offers.
#[derive(Clone, Copy, Debug, PartialEq, Eq, Structural)]
pub struct AvailableEncodings {
    pub gzip: bool,
    pub deflate: bool,
    pub br: bool,
    pub zstd: bool,
}

/// Whether one of `names` is exactly `word`.
pub open spec fn lists(names: Seq<String>, word: Seq<char>) -> bool {
    exists|i: int| 0 <= i < names.len() && (#[trigger] names[i])@ == word
}

/// The extension that marks the variant of a file in the encoding `token`,
/// or `None` where `token` is not one of the four known encodings.
pub open spec fn encoded_ext(token: Seq<char>) -> Option<Seq<char>> {
    if token == "gzip"@ {
        Some(".gz"@)
    } else if token == "zstd"@ {
        Some(".zst"@)
    } else if token == "br"@ {
        Some(".br"@)
    } else if token == "deflate"@ {
        Some(".zz"@)
    } else {
        None
    }
}

/// The names of the four encodings differ from each other.
pub proof fn lemma_encoding_names_differ()
    ensures
        "gzip"@ != "deflate"@,
        "gzip"@ != "br"@,
        "gzip"@ != "zstd"@,
        "deflate"@ != "br"@,
        "deflate"@ != "zstd"@,
        "br"@ != "zstd"@,
{
    reveal_strlit("gzip");
    reveal_strlit("deflate");
    reveal_strlit("br");
    reveal_strlit("zstd");
    assert("gzip"@.len() == 4 && "deflate"@.len() == 7 && "br"@.len() == 2 && "zstd"@.len() == 4);
    assert("gzip"@[0] == 'g' && "zstd"@[0] == 'z');
}

impl AvailableEncodings {
    /// Whether the deployment offers the encoding that `token` names. A
    /// token that is none of `gzip`, `deflate`, `br` and `zstd`, letter for
    /// letter, names no encoding.
    pub open spec fn allows(self, token: Seq<char>) -> bool {
        if token == "gzip"@ {
            self.gzip
        } else if token == "deflate"@ {
            self.deflate
        } else if token == "br"@ {
            self.br
        } else if token == "zstd"@ {
            self.zstd
        } else {
            false
        }
    }

    /// The encodings of `self` together with those that `names` lists.
    pub open spec fn extended(self, names: Seq<String>) -> AvailableEncodings {
        AvailableEncodings {
            gzip: self.gzip || lists(names, "gzip"@),
            deflate: self.deflate || lists(names, "deflate"@),
            br: self.br || lists(names, "br"@),
            zstd: self.zstd || lists(names, "zstd"@),
        }
    }

    /// The deployment that offers no encoding.
    pub open spec fn none() -> AvailableEncodings {
        AvailableEncodings { gzip: false, deflate: false, br: false, zstd: false }
    }

    /// The encodings that `potential_encodings` lists. Names other than
    /// those of the four known encodings are ignored.
    pub fn new(potential_encodings: &Vec<String>) -> (av_enc: AvailableEncodings)
        ensures
            av_enc == AvailableEncodings::none().extended(potential_encodings@),
    {
        let mut av_enc = AvailableEncodings { gzip: false, deflate: false, br: false, zstd: false };
        av_enc.update(potential_encodings);
        av_enc
    }

    /// Adds the encodings that `potential_encodings` lists to those that are
    /// offered already.
    pub fn update(&mut self, potential_encodings: &Vec<String>)
        ensures
            *final(self) == old(self).extended(potential_encodings@),
    {
        let mut i: usize = 0;
        while i < potential_encodings.len()
            invariant
                i <= potential_encodings.len(),
                *self == old(self).extended(potential_encodings@.take(i as int)),
            decreases potential_encodings.len() - i,
        {
            let name = to_chars(potential_encodings[i].as_str());
            let ghost before = potential_encodings@.take(i as int);
            let ghost after = potential_encodings@.take(i + 1);
            proof {
                lemma_encoding_names_differ();
                assert(name@.subrange(0, name.len() as int) =~= name@);
                assert(after[i as int]@ == name@);
                assert forall|word: Seq<char>| #![auto]
                    lists(after, word) == (lists(before, word) || name@ == word) by {
                    if lists(before, word) {
                        let k = choose|k: int| 0 <= k < before.len() && (#[trigger] before[k])@ == word;
                        assert(after[k]@ == word);
                    }
                    if lists(after, word) {
                        let k = choose|k: int| 0 <= k < after.len() && (#[trigger] after[k])@ == word;
                        if k < i {
                            assert(before[k]@ == word);
                        }
                    }
                }
            }
            if window_is(&name, 0, name.len(), "gzip") {
                self.gzip = true;
            } else if window_is(&name, 0, name.len(), "deflate") {
                self.deflate = true;
            } else if window_is(&name, 0, name.len(), "br") {
                self.br = true;
            } else if window_is(&name, 0, name.len(), "zstd") {
                self.zstd = true;
            }
            i += 1;
        }
        assert(potential_encodings@.take(i as int) =~= potential_encodings@);
    }

    /// Tells whether the deployment offers the encoding that `encoding`
    /// names.
    pub fn encoding_is_available(&self, encoding: &str) -> (available: bool)
        ensures
            available == self.allows(encoding@),
    {
        let name = to_chars(encoding);
        assert(name@.subrange(0, name.len() as int) =~= name@);
        if window_is(&name, 0, name.len(), "gzip") {
            self.gzip
        } else if window_is(&name, 0, name.len(), "deflate") {
            self.deflate
        } else if window_is(&name, 0, name.len(), "br") {
            self.br
        } else if window_is(&name, 0, name.len(), "zstd") {
            self.zstd
        } else {
            false
        }
    }
}

/// The extension that marks the variant of a file in the encoding that
/// `encoding` names: `.gz` for `gzip`, `.zst` for `zstd`, `.br` for `br` and
/// `.zz` for `deflate`. Any other name has none.
pub fn get_encoded_ext(encoding: &str) -> (ext: Option<&'static str>)
    ensures
        match encoded_ext(encoding@) {
            Some(e) => ext matches Some(found) && found@ == e,
            None => ext is None,
        },
{
    let name = to_chars(encoding);
    assert(name@.subrange(0, name.len() as int) =~= name@);
    if window_is(&name, 0, name.len(), "gzip") {
        Some(".gz")
    } else if window_is(&name, 0, name.len(), "zstd") {
        Some(".zst")
    } else if window_is(&name, 0, name.len(), "br") {
        Some(".br")
    } else if window_is(&name, 0, name.len(), "deflate") {
        Some(".zz")
    } else {
        None
    }
}

} // verus!
