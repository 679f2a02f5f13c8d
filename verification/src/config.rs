//! Mount specifications as the operator writes them: comma-separated
//! `key=value` pairs such as `type=bind,src=/host/path,dst=/sandbox/path`.

use crate::text::{
    chars_eq, find_char, first_index_of, from_chars, slice_of, split, split_chars, to_chars, views,
};
use vstd::prelude::*;

verus! {

/// The kind of a mount, with where its content comes from.
#[derive(Debug, Clone)]
pub enum MountType {
    /// A host directory shown in the sandbox.
    Bind { src: String },
    /// A filesystem kept in a backing store, served in-process.
    Sqlite { src: String },
}

/// One mount of a sandbox: its kind and the absolute path where the guest
/// sees it.
#[derive(Debug, Clone)]
pub struct MountConfig {
    pub mount_type: MountType,
    pub dst: String,
}

/// What a mount configuration says.
pub struct MountConfigView {
    pub bind: bool,
    pub src: Seq<char>,
    pub dst: Seq<char>,
}

impl View for MountConfig {
    type V = MountConfigView;

    open spec fn view(&self) -> MountConfigView {
        match self.mount_type {
            MountType::Bind { src } => MountConfigView { bind: true, src: src@, dst: self.dst@ },
            MountType::Sqlite { src } => MountConfigView { bind: false, src: src@, dst: self.dst@ },
        }
    }
}

/// Why a mount specification is refused.
#[derive(Debug, Clone, Copy, PartialEq, Eq, Structural)]
pub enum MountErrorKind {
    /// A part is not of the form `key=value`.
    InvalidOption,
    /// A key is given twice.
    DuplicateKey,
    /// No `type` is given.
    MissingType,
    /// A bind mount names no source.
    BindMissingSource,
    /// A bind mount names no destination.
    BindMissingDestination,
    /// A mount on a backing store names no source.
    SqliteMissingSource,
    /// A mount on a backing store names no destination.
    SqliteMissingDestination,
    /// The destination is not an absolute path.
    RelativeDestination,
    /// The type is neither `bind` nor `sqlite`.
    UnsupportedType,
    /// The source of a bind mount could not be made canonical.
    Canonicalize,
}

/// A refusal: its kind and the part of the specification it is about.
#[derive(Debug)]
pub struct MountError {
    pub kind: MountErrorKind,
    pub detail: String,
}

/// A refusal, as a value of the model.
pub struct MountErrorView {
    pub kind: MountErrorKind,
    pub detail: Seq<char>,
}

impl View for MountError {
    type V = MountErrorView;

    open spec fn view(&self) -> MountErrorView {
        MountErrorView { kind: self.kind, detail: self.detail@ }
    }
}

/// The words of a refusal that stand before its detail.
pub open spec fn message_head(kind: MountErrorKind) -> Seq<char> {
    match kind {
        MountErrorKind::InvalidOption => "Invalid mount option '"@,
        MountErrorKind::DuplicateKey => "Duplicate key '"@,
        MountErrorKind::MissingType => "Missing required field 'type'. Example: type=bind,src=/host/path,dst=/sandbox/path."@,
        MountErrorKind::BindMissingSource => "Bind mount requires 'src' field. Example: type=bind,src=/host/path,dst=/sandbox/path."@,
        MountErrorKind::BindMissingDestination => "Bind mount requires 'dst' field. Example: type=bind,src=/host/path,dst=/sandbox/path."@,
        MountErrorKind::SqliteMissingSource => "SQLite mount requires 'src' field. Example: type=sqlite,src=agent.db,dst=/agent."@,
        MountErrorKind::SqliteMissingDestination => "SQLite mount requires 'dst' field. Example: type=sqlite,src=agent.db,dst=/agent."@,
        MountErrorKind::RelativeDestination => "Destination path '"@,
        MountErrorKind::UnsupportedType => "Unsupported mount type '"@,
        MountErrorKind::Canonicalize => "Failed to canonicalize source path '"@,
    }
}

/// The words of a refusal that stand behind its detail.
pub open spec fn message_tail(kind: MountErrorKind) -> Seq<char> {
    match kind {
        MountErrorKind::InvalidOption => "'. Expected format: key=value."@,
        MountErrorKind::DuplicateKey => "' in mount specification."@,
        MountErrorKind::RelativeDestination => "' must be absolute."@,
        MountErrorKind::UnsupportedType => "'. Supported types: bind, sqlite."@,
        MountErrorKind::Canonicalize => "."@,
        _ => ""@,
    }
}

/// The separator between the source and the reason in the detail of a
/// failed canonicalisation.
pub open spec fn reason_separator() -> Seq<char> {
    "': "@
}

impl MountError {
    /// The refusal in words.
    pub fn message(&self) -> (r: String)
        ensures
            r@ == message_head(self.kind) + self.detail@ + message_tail(self.kind),
    {
        let mut r = match self.kind {
            MountErrorKind::InvalidOption => String::from_str("Invalid mount option '"),
            MountErrorKind::DuplicateKey => String::from_str("Duplicate key '"),
            MountErrorKind::MissingType => String::from_str(
                "Missing required field 'type'. Example: type=bind,src=/host/path,dst=/sandbox/path.",
            ),
            MountErrorKind::BindMissingSource => String::from_str(
                "Bind mount requires 'src' field. Example: type=bind,src=/host/path,dst=/sandbox/path.",
            ),
            MountErrorKind::BindMissingDestination => String::from_str(
                "Bind mount requires 'dst' field. Example: type=bind,src=/host/path,dst=/sandbox/path.",
            ),
            MountErrorKind::SqliteMissingSource => String::from_str(
                "SQLite mount requires 'src' field. Example: type=sqlite,src=agent.db,dst=/agent.",
            ),
            MountErrorKind::SqliteMissingDestination => String::from_str(
                "SQLite mount requires 'dst' field. Example: type=sqlite,src=agent.db,dst=/agent.",
            ),
            MountErrorKind::RelativeDestination => String::from_str("Destination path '"),
            MountErrorKind::UnsupportedType => String::from_str("Unsupported mount type '"),
            MountErrorKind::Canonicalize => String::from_str(
                "Failed to canonicalize source path '",
            ),
        };
        r.append(self.detail.as_str());
        match self.kind {
            MountErrorKind::InvalidOption => r.append("'. Expected format: key=value."),
            MountErrorKind::DuplicateKey => r.append("' in mount specification."),
            MountErrorKind::RelativeDestination => r.append("' must be absolute."),
            MountErrorKind::UnsupportedType => r.append("'. Supported types: bind, sqlite."),
            MountErrorKind::Canonicalize => r.append("."),
            _ => r.append(""),
        }
        r
    }
}

/// The key `type`.
pub open spec fn key_type() -> Seq<char> {
    seq!['t', 'y', 'p', 'e']
}

/// The key `src`.
pub open spec fn key_src() -> Seq<char> {
    seq!['s', 'r', 'c']
}

/// The key `source`, which stands for `src`.
pub open spec fn key_source() -> Seq<char> {
    seq!['s', 'o', 'u', 'r', 'c', 'e']
}

/// The key `dst`.
pub open spec fn key_dst() -> Seq<char> {
    seq!['d', 's', 't']
}

/// The key `target`, which stands for `dst`.
pub open spec fn key_target() -> Seq<char> {
    seq!['t', 'a', 'r', 'g', 'e', 't']
}

/// The type `bind`.
pub open spec fn type_bind() -> Seq<char> {
    seq!['b', 'i', 'n', 'd']
}

/// The type `sqlite`.
pub open spec fn type_sqlite() -> Seq<char> {
    seq!['s', 'q', 'l', 'i', 't', 'e']
}

/// The key and the value of a part: what stands before its first `=`, and
/// what stands behind it. None where the part has no `=`.
pub open spec fn option_of(part: Seq<char>) -> Option<(Seq<char>, Seq<char>)> {
    match first_index_of(part, '=') {
        Some(i) => Some((part.take(i), part.skip(i + 1))),
        None => None,
    }
}

/// The value given for `key`.
pub open spec fn value_of(opts: Seq<(Seq<char>, Seq<char>)>, key: Seq<char>) -> Option<Seq<char>>
    decreases opts.len(),
{
    if opts.len() == 0 {
        None
    } else if opts.last().0 == key {
        Some(opts.last().1)
    } else {
        value_of(opts.drop_last(), key)
    }
}

/// The value given for `key`, or else the one given for `alias`.
pub open spec fn value_of_either(
    opts: Seq<(Seq<char>, Seq<char>)>,
    key: Seq<char>,
    alias: Seq<char>,
) -> Option<Seq<char>> {
    match value_of(opts, key) {
        Some(v) => Some(v),
        None => value_of(opts, alias),
    }
}

/// The options that the parts give, in order; or the refusal for the first
/// part that is malformed or repeats a key.
pub open spec fn parse_options(parts: Seq<Seq<char>>) -> Result<
    Seq<(Seq<char>, Seq<char>)>,
    MountErrorView,
>
    decreases parts.len(),
{
    if parts.len() == 0 {
        Ok(Seq::empty())
    } else {
        match parse_options(parts.drop_last()) {
            Err(e) => Err(e),
            Ok(opts) => match option_of(parts.last()) {
                None => Err(
                    MountErrorView { kind: MountErrorKind::InvalidOption, detail: parts.last() },
                ),
                Some((k, v)) => if value_of(opts, k) is Some {
                    Err(MountErrorView { kind: MountErrorKind::DuplicateKey, detail: k })
                } else {
                    Ok(opts.push((k, v)))
                },
            },
        }
    }
}

/// What the options describe.
pub open spec fn configure(opts: Seq<(Seq<char>, Seq<char>)>) -> Result<
    MountConfigView,
    MountErrorView,
> {
    let none = Seq::<char>::empty();
    match value_of(opts, key_type()) {
        None => Err(MountErrorView { kind: MountErrorKind::MissingType, detail: none }),
        Some(ty) => if ty == type_bind() || ty == type_sqlite() {
            let bind = ty == type_bind();
            match value_of_either(opts, key_src(), key_source()) {
                None => Err(
                    MountErrorView {
                        kind: if bind {
                            MountErrorKind::BindMissingSource
                        } else {
                            MountErrorKind::SqliteMissingSource
                        },
                        detail: none,
                    },
                ),
                Some(src) => match value_of_either(opts, key_dst(), key_target()) {
                    None => Err(
                        MountErrorView {
                            kind: if bind {
                                MountErrorKind::BindMissingDestination
                            } else {
                                MountErrorKind::SqliteMissingDestination
                            },
                            detail: none,
                        },
                    ),
                    Some(dst) => if dst.len() > 0 && dst[0] == '/' {
                        Ok(MountConfigView { bind, src, dst })
                    } else {
                        Err(
                            MountErrorView {
                                kind: MountErrorKind::RelativeDestination,
                                detail: dst,
                            },
                        )
                    },
                },
            }
        } else {
            Err(MountErrorView { kind: MountErrorKind::UnsupportedType, detail: ty })
        },
    }
}

/// What a mount specification describes, before the source of a bind mount
/// is made canonical.
pub open spec fn parsed(s: Seq<char>) -> Result<MountConfigView, MountErrorView> {
    match parse_options(split(s, ',')) {
        Err(e) => Err(e),
        Ok(opts) => configure(opts),
    }
}

/// Once a part is refused, the parts behind it change nothing.
pub proof fn lemma_refusal_stands(parts: Seq<Seq<char>>, n: int)
    requires
        0 <= n <= parts.len(),
        parse_options(parts.take(n)) is Err,
    ensures
        parse_options(parts) == parse_options(parts.take(n)),
    decreases parts.len(),
{
    if n == parts.len() {
        assert(parts.take(n) =~= parts);
    } else {
        assert(parts.drop_last().take(n) =~= parts.take(n));
        lemma_refusal_stands(parts.drop_last(), n);
    }
}

/// The options read so far, as values of the model.
pub open spec fn option_views(v: Seq<(Vec<char>, Vec<char>)>) -> Seq<(Seq<char>, Seq<char>)> {
    v.map_values(|o: (Vec<char>, Vec<char>)| (o.0@, o.1@))
}

/// The value given for `key` among the options.
fn lookup<'a>(opts: &'a Vec<(Vec<char>, Vec<char>)>, key: &[char]) -> (r: Option<&'a Vec<char>>)
    ensures
        match r {
            Some(v) => value_of(option_views(opts@), key@) == Some(v@),
            None => value_of(option_views(opts@), key@) is None,
        },
{
    let mut found: Option<&Vec<char>> = None;
    let mut i: usize = 0;
    assert(option_views(opts@).take(0) =~= Seq::empty());
    while i < opts.len()
        invariant
            i <= opts@.len(),
            match found {
                Some(v) => value_of(option_views(opts@).take(i as int), key@) == Some(v@),
                None => value_of(option_views(opts@).take(i as int), key@) is None,
            },
        decreases opts.len() - i,
    {
        let ghost all = option_views(opts@);
        assert(all.take(i + 1).drop_last() =~= all.take(i as int));
        assert(all.take(i + 1).last() == (opts@[i as int].0@, opts@[i as int].1@));
        if chars_eq(opts[i].0.as_slice(), key) {
            found = Some(&opts[i].1);
        }
        i += 1;
    }
    assert(option_views(opts@).take(opts@.len() as int) =~= option_views(opts@));
    found
}

/// The value given for `key`, or else the one given for `alias`.
fn lookup_either<'a>(opts: &'a Vec<(Vec<char>, Vec<char>)>, key: &[char], alias: &[char]) -> (r:
    Option<&'a Vec<char>>)
    ensures
        match r {
            Some(v) => value_of_either(option_views(opts@), key@, alias@) == Some(v@),
            None => value_of_either(option_views(opts@), key@, alias@) is None,
        },
{
    match lookup(opts, key) {
        Some(v) => Some(v),
        None => lookup(opts, alias),
    }
}

/// A refusal of the given kind about `detail`.
fn refuse(kind: MountErrorKind, detail: &[char]) -> (r: MountError)
    ensures
        r@ == (MountErrorView { kind, detail: detail@ }),
{
    MountError { kind, detail: from_chars(detail) }
}

/// The options that the parts give.
fn read_options(parts: &Vec<Vec<char>>) -> (r: Result<Vec<(Vec<char>, Vec<char>)>, MountError>)
    ensures
        match parse_options(views(parts@)) {
            Ok(opts) => r is Ok && option_views(r->Ok_0@) == opts,
            Err(e) => r is Err && r->Err_0@ == e,
        },
{
    let mut opts: Vec<(Vec<char>, Vec<char>)> = Vec::new();
    let mut i: usize = 0;
    assert(views(parts@).take(0) =~= Seq::empty());
    assert(option_views(opts@) =~= Seq::empty());
    while i < parts.len()
        invariant
            i <= parts@.len(),
            parse_options(views(parts@).take(i as int)) == Ok::<
                Seq<(Seq<char>, Seq<char>)>,
                MountErrorView,
            >(option_views(opts@)),
        decreases parts.len() - i,
    {
        let ghost all = views(parts@);
        assert(all.take(i + 1).drop_last() =~= all.take(i as int));
        assert(all.take(i + 1).last() == parts@[i as int]@);
        let part = parts[i].as_slice();
        match find_char(part, '=') {
            None => {
                proof {
                    lemma_refusal_stands(all, i + 1);
                }
                return Err(refuse(MountErrorKind::InvalidOption, part));
            },
            Some(eq) => {
                let end = part.len();
                let key = slice_of(part, 0, eq);
                let value = slice_of(part, eq + 1, end);
                assert(key@ =~= part@.take(eq as int));
                assert(value@ =~= part@.skip(eq + 1));
                if lookup(&opts, key.as_slice()).is_some() {
                    proof {
                        lemma_refusal_stands(all, i + 1);
                    }
                    return Err(refuse(MountErrorKind::DuplicateKey, key.as_slice()));
                }
                let ghost before = option_views(opts@);
                opts.push((key, value));
                assert(option_views(opts@) =~= before.push((key@, value@)));
            },
        }
        i += 1;
    }
    assert(views(parts@).take(parts@.len() as int) =~= views(parts@));
    Ok(opts)
}

impl MountConfig {
    /// Reads a mount specification. The source of a bind mount is taken as
    /// written; `with_canonical_source` completes it.
    pub fn parse(s: &str) -> (r: Result<MountConfig, MountError>)
        ensures
            match parsed(s@) {
                Ok(c) => r is Ok && r->Ok_0@ == c,
                Err(e) => r is Err && r->Err_0@ == e,
            },
    {
        let chars = to_chars(s);
        let parts = split_chars(chars.as_slice(), ',');
        let opts = match read_options(&parts) {
            Ok(opts) => opts,
            Err(e) => {
                return Err(e);
            },
        };
        let none: [char; 0] = [];
        let k_type: [char; 4] = ['t', 'y', 'p', 'e'];
        let k_src: [char; 3] = ['s', 'r', 'c'];
        let k_source: [char; 6] = ['s', 'o', 'u', 'r', 'c', 'e'];
        let k_dst: [char; 3] = ['d', 's', 't'];
        let k_target: [char; 6] = ['t', 'a', 'r', 'g', 'e', 't'];
        let t_bind: [char; 4] = ['b', 'i', 'n', 'd'];
        let t_sqlite: [char; 6] = ['s', 'q', 'l', 'i', 't', 'e'];
        proof {
            assert(none@ =~= Seq::<char>::empty());
            assert(k_type@ =~= key_type());
            assert(k_src@ =~= key_src());
            assert(k_source@ =~= key_source());
            assert(k_dst@ =~= key_dst());
            assert(k_target@ =~= key_target());
            assert(t_bind@ =~= type_bind());
            assert(t_sqlite@ =~= type_sqlite());
        }
        let ty = match lookup(&opts, k_type.as_slice()) {
            Some(ty) => ty,
            None => {
                return Err(refuse(MountErrorKind::MissingType, none.as_slice()));
            },
        };
        let bind = chars_eq(ty.as_slice(), t_bind.as_slice());
        if !bind && !chars_eq(ty.as_slice(), t_sqlite.as_slice()) {
            return Err(refuse(MountErrorKind::UnsupportedType, ty.as_slice()));
        }
        let src = match lookup_either(&opts, k_src.as_slice(), k_source.as_slice()) {
            Some(src) => src,
            None => {
                let kind = if bind {
                    MountErrorKind::BindMissingSource
                } else {
                    MountErrorKind::SqliteMissingSource
                };
                return Err(refuse(kind, none.as_slice()));
            },
        };
        let dst = match lookup_either(&opts, k_dst.as_slice(), k_target.as_slice()) {
            Some(dst) => dst,
            None => {
                let kind = if bind {
                    MountErrorKind::BindMissingDestination
                } else {
                    MountErrorKind::SqliteMissingDestination
                };
                return Err(refuse(kind, none.as_slice()));
            },
        };
        if !(dst.len() > 0 && dst[0] == '/') {
            return Err(refuse(MountErrorKind::RelativeDestination, dst.as_slice()));
        }
        let src = from_chars(src.as_slice());
        let dst = from_chars(dst.as_slice());
        let mount_type = if bind {
            MountType::Bind { src }
        } else {
            MountType::Sqlite { src }
        };
        Ok(MountConfig { mount_type, dst })
    }

    /// Completes a configuration with the outcome of making the source of a
    /// bind mount canonical: the canonical path replaces the source, and a
    /// failure refuses the mount with its reason. A mount on a backing store
    /// keeps its source as written.
    pub fn with_canonical_source(self, canonical: Result<String, String>) -> (r: Result<
        MountConfig,
        MountError,
    >)
        ensures
            !self@.bind ==> r is Ok && r->Ok_0@ == self@,
            self@.bind ==> match canonical {
                Ok(path) => r is Ok && r->Ok_0@ == (MountConfigView { src: path@, ..self@ }),
                Err(reason) => r is Err && r->Err_0@ == (MountErrorView {
                    kind: MountErrorKind::Canonicalize,
                    detail: self@.src + reason_separator() + reason@,
                }),
            },
    {
        match self.mount_type {
            MountType::Sqlite { src } => Ok(
                MountConfig { mount_type: MountType::Sqlite { src }, dst: self.dst },
            ),
            MountType::Bind { src } => match canonical {
                Ok(path) => Ok(
                    MountConfig { mount_type: MountType::Bind { src: path }, dst: self.dst },
                ),
                Err(reason) => {
                    let mut detail = src;
                    detail.append("': ");
                    detail.append(reason.as_str());
                    Err(MountError { kind: MountErrorKind::Canonicalize, detail })
                },
            },
        }
    }
}

impl std::str::FromStr for MountConfig {
    type Err = String;

    /// Reads a mount specification; a refusal comes back in words. The
    /// source of a bind mount comes back as it is written: whether it
    /// exists is not looked at, and it is not made canonical. A caller that
    /// mounts what it read completes it with `with_canonical_source`.
    fn from_str(s: &str) -> (r: Result<Self, String>)
        ensures
            match parsed(s@) {
                Ok(c) => r is Ok && r->Ok_0@ == c,
                Err(e) => r is Err && r->Err_0@ == message_head(e.kind) + e.detail + message_tail(
                    e.kind,
                ),
            },
    {
        match MountConfig::parse(s) {
            Ok(c) => Ok(c),
            Err(e) => Err(e.message()),
        }
    }
}

} // verus!
