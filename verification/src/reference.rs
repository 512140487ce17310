//! Secret references: `vault://<api-version>/<mount>/<secret-path>/<field>`.

use vstd::prelude::*;
use vstd::string::*;
use crate::failure::{Failure, FailureView};
use crate::text::{
    chars_of, has_prefix, join, lemma_join_concat, lemma_join_neighbours, lemma_join_split,
    lemma_split_around, lemma_split_clean, lemma_split_has_piece, lemma_split_pieces_clean, pieces,
    split, split_spans,
};

verus! {

/// The prefix that marks a value as a secret reference.
pub const SCHEME: &'static str = "vault://";

/// The number of characters of [`SCHEME`].
pub const SCHEME_LENGTH: usize = 8;

/// The versions of the key-value store that can be read.
#[derive(Debug, Clone, Copy, PartialEq, Eq, Structural)]
pub enum ApiVersion {
    V2,
}

/// Where a secret value lives in the store.
#[derive(Debug, Clone, PartialEq, Eq)]
pub struct SecretReference {
    pub version: ApiVersion,
    pub mount: String,
    pub path: String,
    pub field: String,
}

/// A [`SecretReference`] with its texts as sequences of characters.
pub struct ReferenceView {
    pub version: ApiVersion,
    pub mount: Seq<char>,
    pub path: Seq<char>,
    pub field: Seq<char>,
}

impl View for SecretReference {
    type V = ReferenceView;

    open spec fn view(&self) -> ReferenceView {
        ReferenceView {
            version: self.version,
            mount: self.mount@,
            path: self.path@,
            field: self.field@,
        }
    }
}

/// The characters of [`SCHEME`].
pub open spec fn scheme() -> Seq<char> {
    seq!['v', 'a', 'u', 'l', 't', ':', '/', '/']
}

/// The one api-version segment that is accepted.
pub open spec fn supported_version() -> Seq<char> {
    seq!['v', '2']
}

/// A value is a reference exactly when it begins with the scheme prefix.
pub open spec fn is_reference(value: Seq<char>) -> bool {
    has_prefix(value, scheme())
}

/// The segments of a reference: what follows the prefix, cut at every `/`.
pub open spec fn segments(value: Seq<char>) -> Seq<Seq<char>> {
    split(value.skip(scheme().len() as int), '/')
}

/// What a value stands for.
///
/// A value without the prefix is a literal (`Ok(None)`). A reference needs
/// at least four segments; the first is the api version, the second the
/// mount, the last the field, and the ones between, joined by `/`, are the
/// secret path. The number of segments is looked at before the version.
pub open spec fn spec_parse(value: Seq<char>) -> Result<Option<ReferenceView>, FailureView> {
    if !is_reference(value) {
        Ok(None)
    } else if segments(value).len() < 4 {
        Err(FailureView::MalformedReference(value))
    } else if segments(value)[0] != supported_version() {
        Err(FailureView::UnsupportedApiVersion(value))
    } else {
        let parts = segments(value);
        Ok(
            Some(
                ReferenceView {
                    version: ApiVersion::V2,
                    mount: parts[1],
                    path: join(parts.subrange(2, parts.len() - 1), '/'),
                    field: parts.last(),
                },
            ),
        )
    }
}

/// The view of a parse result.
pub open spec fn parsed_view(r: Result<Option<SecretReference>, Failure>) -> Result<
    Option<ReferenceView>,
    FailureView,
> {
    match r {
        Ok(Some(reference)) => Ok(Some(reference@)),
        Ok(None) => Ok(None),
        Err(e) => Err(e@),
    }
}

/// The text of the `v2` reference to `field` of the secret at `path` under `mount`.
pub open spec fn reference_text(mount: Seq<char>, path: Seq<char>, field: Seq<char>) -> Seq<char> {
    scheme() + ((supported_version().push('/') + mount).push('/') + path).push('/') + field
}

/// Whether `value` is a secret reference rather than a literal. Only as
/// much of the value is read as the prefix is long.
pub fn is_secret_reference(value: &str) -> (r: bool)
    ensures
        r == is_reference(value@),
{
    let prefix = chars_of(SCHEME);
    proof {
        reveal_strlit("vault://");
        assert(prefix@ =~= scheme());
    }
    let mut matched: usize = 0;
    for c in it: value.chars()
        invariant
            it.seq() == value@,
            prefix@ == scheme(),
            matched == it.index(),
            matched < prefix.len(),
            value@.take(matched as int) == prefix@.take(matched as int),
    {
        if c != prefix[matched] {
            proof {
                if is_reference(value@) {
                    assert(value@.subrange(0, prefix.len() as int)[matched as int]
                        == prefix@[matched as int]);
                }
            }
            return false;
        }
        proof {
            assert(value@.take(matched + 1) =~= value@.take(matched as int).push(c));
            assert(prefix@.take(matched + 1) =~= prefix@.take(matched as int).push(c));
        }
        matched += 1;
        if matched == prefix.len() {
            proof {
                assert(prefix@.take(matched as int) =~= prefix@);
            }
            return true;
        }
    }
    false
}

/// Decomposes a value: `Ok(None)` for a literal, the addressed secret for a
/// well-formed `v2` reference, and an error that carries the value otherwise.
pub fn parse_reference(value: &str) -> (r: Result<Option<SecretReference>, Failure>)
    ensures
        parsed_view(r) == spec_parse(value@),
{
    if !is_secret_reference(value) {
        return Ok(None);
    }
    let chars = chars_of(value);
    let spans = split_spans(&chars, SCHEME_LENGTH, '/');
    let n = spans.len();
    if n < 4 {
        return Err(Failure::MalformedReference(value.to_owned()));
    }
    let version = spans[0];
    let supported = version.1 - version.0 == 2 && chars[version.0] == 'v' && chars[version.0 + 1]
        == '2';
    proof {
        let parts = segments(value@);
        assert(parts[0] == pieces(chars@, spans@)[0]);
        if supported {
            assert(parts[0] =~= supported_version());
        } else {
            assert(parts[0].len() == version.1 - version.0);
            assert(supported_version().len() == 2);
            if version.1 - version.0 == 2 {
                assert(parts[0][0] == chars@[version.0 as int]);
                assert(parts[0][1] == chars@[version.0 + 1]);
                assert(supported_version()[0] == 'v' && supported_version()[1] == '2');
            }
        }
    }
    if !supported {
        return Err(Failure::UnsupportedApiVersion(value.to_owned()));
    }
    proof {
        lemma_join_neighbours(chars@, SCHEME_LENGTH as int, spans@, '/', 2, n - 1);
        let parts = segments(value@);
        assert(parts[1] == pieces(chars@, spans@)[1]);
        assert(parts.last() == pieces(chars@, spans@)[n - 1]);
    }
    let mount = value.substring_char(spans[1].0, spans[1].1).to_owned();
    let path = value.substring_char(spans[2].0, spans[n - 2].1).to_owned();
    let field = value.substring_char(spans[n - 1].0, spans[n - 1].1).to_owned();
    Ok(Some(SecretReference { version: ApiVersion::V2, mount, path, field }))
}

/// Every written `v2` reference is read back as it was written: the mount
/// and the field are the second and the last segment, and whatever stands
/// between them, slashes included, is the secret path.
pub proof fn law_reference_text_parses(mount: Seq<char>, path: Seq<char>, field: Seq<char>)
    requires
        !mount.contains('/'),
        !field.contains('/'),
    ensures
        spec_parse(reference_text(mount, path, field)) == Ok::<Option<ReferenceView>, FailureView>(
            Some(ReferenceView { version: ApiVersion::V2, mount, path, field }),
        ),
{
    let version = supported_version();
    let head = (version.push('/') + mount).push('/') + path;
    let rest = head.push('/') + field;
    let text = reference_text(mount, path, field);
    assert(text.subrange(0, scheme().len() as int) =~= scheme());
    assert(text.skip(scheme().len() as int) =~= rest);
    assert(!version.contains('/'));
    lemma_split_clean(version, '/');
    lemma_split_clean(mount, '/');
    lemma_split_clean(field, '/');
    lemma_split_has_piece(path, '/');
    lemma_split_around(version, mount, '/');
    lemma_split_around(version.push('/') + mount, path, '/');
    lemma_split_around(head, field, '/');
    let middle = split(path, '/');
    let parts = segments(text);
    assert(parts =~= seq![version, mount] + middle + seq![field]);
    assert(parts.subrange(2, parts.len() - 1) =~= middle);
    lemma_join_split(path, '/');
}

/// Every value that parses to a reference is that reference as written:
/// neither its mount nor its field holds a slash, and nothing else parses
/// to the same secret.
pub proof fn law_parsed_reference_is_its_text(value: Seq<char>, reference: ReferenceView)
    requires
        spec_parse(value) == Ok::<Option<ReferenceView>, FailureView>(Some(reference)),
    ensures
        !reference.mount.contains('/'),
        !reference.field.contains('/'),
        value == reference_text(reference.mount, reference.path, reference.field),
{
    let rest = value.skip(scheme().len() as int);
    let parts = segments(value);
    let n = parts.len() as int;
    let middle = parts.subrange(2, n - 1);
    let front = seq![parts[0], parts[1]];
    lemma_split_pieces_clean(rest, '/');
    lemma_join_split(rest, '/');
    assert(parts =~= (front + middle).push(parts[n - 1]));
    assert(front.drop_last() =~= seq![parts[0]]);
    assert(join(seq![parts[0]], '/') == parts[0]);
    assert(join(front, '/') =~= parts[0].push('/') + parts[1]);
    lemma_join_concat(front, middle, '/');
    assert(((front + middle).push(parts[n - 1])).drop_last() =~= front + middle);
    assert(value =~= scheme() + rest);
}

} // verus!
