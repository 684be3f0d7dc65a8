//! Builder for the internal document graph of an e-book package: a section
//! tree with filename governance, per-class resource registries, a cover
//! slot, and encoders that render the navigation and package documents in
//! either of two schema dialects.

use vstd::prelude::*;

pub mod datetime;
pub mod epub;
pub mod opf;
pub mod strutil;
pub mod toc;
pub mod xhtml;
pub mod xmlesc;

verus! {

/// Errors reported by the builder and the encoders.
#[derive(Debug)]
pub enum Error {
    /// The provided metadata is not a supported value.
    InvalidMetadataErr(String),
    /// An I/O exception occurred in the file system.
    IOError {
        /// Short description of the failure.
        msg: String,
        /// Underlying cause, rendered as text.
        cause: String,
    },
    /// The path is unreadable, does not exist, or has abnormal permissions.
    PathError(String),
    /// The supplied filename is duplicated.
    FilenameUsedErr(String),
    /// Encoding error.
    NonEncodable(String),
    /// Mime type error.
    MimeError(String),
    /// Path conversion error.
    PathConversionErr(String),
    /// File not found error.
    FileNotFoundErr(String),
    /// Path creation error.
    PathCreateErr(String),
    /// The parent filename was not found in the registry.
    ParentExistedErr(String),
    /// The filename already exists.
    FilenameExistedErr(String),
    /// Media file error.
    MediaError(String),
    /// Serialize error.
    SerializeErr(String),
}

/// A source location together with the collaborator-supplied answer of the
/// filesystem existence check.  The core itself performs no I/O: the caller
/// checks the disk and hands the result in as a plain value.
#[derive(Debug, Clone)]
pub struct SourceRef {
    /// The source location (a path in the caller's world).
    pub location: String,
    /// Whether the existence check found the location.
    pub exists: bool,
}

impl SourceRef {
    /// Bundle a source location with the result of the existence check.
    pub fn new(location: String, exists: bool) -> (r: SourceRef)
        ensures
            r.location@ == location@,
            r.exists == exists,
    {
        SourceRef { location, exists }
    }
}

/// The internal names of the entries, in insertion order.
pub open spec fn entry_keys(es: Seq<(String, String)>) -> Seq<Seq<char>> {
    es.map_values(|p: (String, String)| p.0@)
}

/// Views of the entries: internal name and source location.
pub open spec fn entry_views(es: Seq<(String, String)>) -> Seq<(Seq<char>, Seq<char>)> {
    es.map_values(|p: (String, String)| (p.0@, p.1@))
}

/// One asset class of the resource registry: internal name to source
/// location, with unique names.
#[derive(Debug)]
pub struct MediaMap {
    pub entries: Vec<(String, String)>,
}

impl MediaMap {
    /// The internal names, in insertion order.
    pub open spec fn keys(self) -> Seq<Seq<char>> {
        entry_keys(self.entries@)
    }

    /// The entries as plain values.
    pub open spec fn map_view(self) -> Seq<(Seq<char>, Seq<char>)> {
        entry_views(self.entries@)
    }

    /// Well-formedness: internal names are unique within the class.
    pub open spec fn wf(self) -> bool {
        self.keys().no_duplicates()
    }

    /// An empty class.
    pub fn new() -> (r: MediaMap)
        ensures
            r.entries@ == Seq::<(String, String)>::empty(),
            r.wf(),
    {
        let r = MediaMap { entries: Vec::new() };
        proof {
            assert(r.keys() =~= Seq::<Seq<char>>::empty());
        }
        r
    }

    /// Number of entries.
    pub fn len(&self) -> (r: usize)
        ensures
            r == self.entries@.len(),
    {
        self.entries.len()
    }

    /// Whether an entry with this internal name exists.
    pub fn contains_name(&self, name: &String) -> (r: bool)
        ensures
            r == self.keys().contains(name@),
    {
        let mut i: usize = 0;
        while i < self.entries.len()
            invariant
                i <= self.entries@.len(),
                forall|j: int| 0 <= j < i ==> self.entries@[j].0@ != name@,
            decreases self.entries@.len() - i,
        {
            if self.entries[i].0.eq(name) {
                proof {
                    assert(self.keys()[i as int] == name@);
                }
                return true;
            }
            i = i + 1;
        }
        proof {
            assert(forall|j: int|
                0 <= j < self.keys().len() ==> self.keys()[j] == self.entries@[j].0@);
        }
        false
    }

    /// Whether an entry binds this internal name to exactly this source.
    pub fn contains_entry(&self, name: &String, source: &String) -> (r: bool)
        ensures
            r == has_entry(self.entries@, name@, source@),
    {
        let mut i: usize = 0;
        while i < self.entries.len()
            invariant
                i <= self.entries@.len(),
                forall|j: int|
                    0 <= j < i ==> !(self.entries@[j].0@ == name@ && self.entries@[j].1@
                        == source@),
            decreases self.entries@.len() - i,
        {
            if self.entries[i].0.eq(name) && self.entries[i].1.eq(source) {
                return true;
            }
            i = i + 1;
        }
        false
    }

    /// Remove every entry with this internal name (at most one when the
    /// class is well-formed).
    pub fn remove_name(&mut self, name: &String)
        ensures
            final(self).entries@ == remove_key_spec(old(self).entries@, name@),
    {
        let ghost es0 = self.entries@;
        let mut out: Vec<(String, String)> = Vec::new();
        let mut i: usize = 0;
        proof {
            assert(remove_key_spec(es0.subrange(0, 0), name@) =~= Seq::<(String, String)>::empty());
            assert(out@ =~= remove_key_spec(es0.subrange(0, 0), name@));
        }
        while i < self.entries.len()
            invariant
                i <= es0.len(),
                self.entries@ == es0,
                out@ == remove_key_spec(es0.subrange(0, i as int), name@),
            decreases es0.len() - i,
        {
            proof {
                let pre = es0.subrange(0, i as int);
                let cur = es0.subrange(0, i + 1 as int);
                assert(cur.drop_last() =~= pre);
                assert(cur.last() == es0[i as int]);
            }
            if !self.entries[i].0.eq(name) {
                let k = self.entries[i].0.clone();
                let v = self.entries[i].1.clone();
                out.push((k, v));
                proof {
                    assert(out@ =~= remove_key_spec(es0.subrange(0, i + 1 as int), name@));
                }
            }
            i = i + 1;
        }
        proof {
            assert(es0.subrange(0, es0.len() as int) =~= es0);
        }
        self.entries = out;
    }
}

/// Whether some entry binds the internal name `k` to exactly the source
/// `v`.
pub open spec fn has_entry(es: Seq<(String, String)>, k: Seq<char>, v: Seq<char>) -> bool {
    exists|i: int| 0 <= i < es.len() && es[i].0@ == k && es[i].1@ == v
}

/// The entries of `es` whose internal name differs from `k`, in order.
pub open spec fn remove_key_spec(es: Seq<(String, String)>, k: Seq<char>) -> Seq<(String, String)>
    decreases es,
{
    if es.len() == 0 {
        Seq::empty()
    } else if es.last().0@ == k {
        remove_key_spec(es.drop_last(), k)
    } else {
        remove_key_spec(es.drop_last(), k).push(es.last())
    }
}

/// The extension of a base name, with the fallback used for synthesized
/// names.
pub open spec fn ext_or_default(base: Seq<char>) -> Seq<char> {
    match crate::strutil::ext_spec(base) {
        Option::Some(e) => e,
        Option::None => "jpg"@,
    }
}

/// The internal name chosen for an asset registered without an explicit
/// name: the source's base name, unless that name is over the length
/// ceiling or already taken, in which case a numbered name is synthesized
/// from the class name, the current map size plus one, and the extension.
pub open spec fn auto_media_name(keys: Seq<Seq<char>>, loc: Seq<char>, class: Seq<char>) -> Seq<
    char,
> {
    let base = crate::strutil::base_name_spec(loc);
    if base.len() > 255 || keys.contains(base) {
        class + "_"@ + crate::strutil::dec_spec((keys.len() + 1) as nat) + "."@ + ext_or_default(
            base,
        )
    } else {
        base
    }
}

/// The internal name an asset registration resolves to.
pub open spec fn resolved_media_name(
    keys: Seq<Seq<char>>,
    explicit: Option<Seq<char>>,
    loc: Seq<char>,
    class: Seq<char>,
) -> Seq<char> {
    match explicit {
        Option::Some(n) => n,
        Option::None => auto_media_name(keys, loc, class),
    }
}

/// Register one asset in a class of the registry.  The source must have
/// passed the existence check; the internal name is the explicit one when
/// given, the derived one otherwise.  An explicit name that is already
/// bound to the same source is a repeat registration: the existing
/// internal path is returned and nothing changes.  A collision with a
/// different source is an error and the class is left untouched.  On
/// success the entry is appended and the internal path
/// `../<folder>/<name>` is returned.
pub(crate) fn add_media(
    source: &SourceRef,
    internal_filename: Option<String>,
    media_file_format: &str,
    media_folder_name: &str,
    map: &mut MediaMap,
) -> (r: Result<String, Error>)
    requires
        old(map).entries@.len() < u64::MAX,
    ensures
        ({
            let keys = old(map).keys();
            let name = resolved_media_name(
                keys,
                match internal_filename {
                    Option::Some(n) => Option::Some(n@),
                    Option::None => Option::None,
                },
                source.location@,
                media_file_format@,
            );
            let repeat = match internal_filename {
                Option::Some(n) => has_entry(old(map).entries@, n@, source.location@),
                Option::None => false,
            };
            match r {
                Result::Ok(path) => source.exists && path@ == "../"@ + media_folder_name@ + "/"@
                    + name && (if repeat {
                    *final(map) == *old(map)
                } else {
                    !keys.contains(name) && final(map).map_view() == old(map).map_view().push(
                        (name, source.location@),
                    )
                }),
                Result::Err(e) => *final(map) == *old(map) && (match e {
                    Error::FileNotFoundErr(_) => !source.exists,
                    Error::FilenameUsedErr(_) => source.exists && keys.contains(name) && !repeat,
                    _ => false,
                }),
            }
        }),
        old(map).wf() && r is Ok ==> final(map).wf(),
{
    if !source.exists {
        let mut msg = String::from_str("File not found:");
        msg.append(source.location.as_str());
        return Result::Err(Error::FileNotFoundErr(msg));
    }
    let ghost keys = map.keys();
    let mut explicit = false;
    let filename: String = match internal_filename {
        Option::Some(n) => {
            explicit = true;
            n
        },
        Option::None => {
            let base = crate::strutil::base_name(source.location.as_str());
            if base.as_str().unicode_len() > 255 || map.contains_name(&base) {
                let mut synth = String::from_str(media_file_format);
                synth.append("_");
                let n = map.len() as u64 + 1;
                let num = crate::strutil::u64_to_dec(n);
                synth.append(num.as_str());
                synth.append(".");
                match crate::strutil::extension_of(base.as_str()) {
                    Option::Some(e) => synth.append(e.as_str()),
                    Option::None => synth.append("jpg"),
                }
                proof {
                    assert(synth@ =~= auto_media_name(keys, source.location@,
                        media_file_format@));
                }
                synth
            } else {
                base
            }
        },
    };
    if explicit && map.contains_entry(&filename, &source.location) {
        // repeat registration of the same asset under the same name
        let mut path = String::from_str("../");
        path.append(media_folder_name);
        path.append("/");
        path.append(filename.as_str());
        return Result::Ok(path);
    }
    if map.contains_name(&filename) {
        let mut msg = String::from_str("Filename already used:");
        msg.append(filename.as_str());
        return Result::Err(Error::FilenameUsedErr(msg));
    }
    let ghost old_entries = map.entries@;
    map.entries.push((filename.clone(), source.location.clone()));
    proof {
        assert(entry_views(old_entries.push((filename, source.location))) =~= entry_views(
            old_entries,
        ).push((filename@, source.location@)));
        assert(entry_keys(old_entries.push((filename, source.location))) =~= entry_keys(
            old_entries,
        ).push(filename@));
        if entry_keys(old_entries).no_duplicates() {
            assert(entry_keys(old_entries.push((filename, source.location))).no_duplicates());
        }
    }
    let mut path = String::from_str("../");
    path.append(media_folder_name);
    path.append("/");
    path.append(filename.as_str());
    Result::Ok(path)
}

} // verus!
