//! Skill metadata and its naming and size invariants.

use vstd::prelude::*;

verus! {

/// Metadata declared in the frontmatter block of a skill's definition file.
///
/// `metadata` is an open string-to-string extension bag whose entry order is
/// irrelevant; it defaults to empty when the block has no such field.
pub struct SkillMetadata {
    /// Identifier; must match the enclosing directory's name at discovery time.
    pub name: String,
    /// Free text describing purpose and trigger conditions.
    pub description: String,
    /// Informational, unvalidated.
    pub license: Option<String>,
    /// Informational, unvalidated.
    pub compatibility: Option<String>,
    /// Open-ended extension entries.
    pub metadata: Vec<(String, String)>,
    /// Space-delimited tool list, kept as raw text.
    pub allowed_tools: Option<String>,
}

/// The mathematical view of a [`SkillMetadata`] value.
pub struct MetaView {
    pub name: Seq<char>,
    pub description: Seq<char>,
    pub license: Option<Seq<char>>,
    pub compatibility: Option<Seq<char>>,
    pub metadata: Seq<(Seq<char>, Seq<char>)>,
    pub allowed_tools: Option<Seq<char>>,
}

impl View for SkillMetadata {
    type V = MetaView;

    open spec fn view(&self) -> MetaView {
        MetaView {
            name: self.name@,
            description: self.description@,
            license: self.license.deep_view(),
            compatibility: self.compatibility.deep_view(),
            metadata: self.metadata.deep_view(),
            allowed_tools: self.allowed_tools.deep_view(),
        }
    }
}

/// The first invariant a metadata value violates, in checking order.
#[derive(Clone, Copy, Debug, PartialEq, Eq, Structural)]
pub enum ValidationError {
    /// The name is empty.
    EmptyName,
    /// The name is longer than 64 characters.
    NameTooLong,
    /// The name holds a character besides lowercase ASCII letters, digits and
    /// hyphens.
    NameInvalidChar,
    /// The description is longer than 1024 characters.
    DescriptionTooLong,
}

/// Whether `c` may stand in a skill name: lowercase ASCII letter, ASCII digit
/// or hyphen.
pub open spec fn is_name_char(c: char) -> bool {
    let u = c as u32;
    (0x61 <= u && u <= 0x7A) || (0x30 <= u && u <= 0x39) || u == 0x2D
}

pub fn is_name_char_exec(c: char) -> (r: bool)
    ensures
        r == is_name_char(c),
{
    let u = c as u32;
    (0x61 <= u && u <= 0x7A) || (0x30 <= u && u <= 0x39) || u == 0x2D
}

/// Whether `n` is a well-formed skill name: one to 64 characters, each a
/// lowercase ASCII letter, digit or hyphen.
pub open spec fn spec_valid_name(n: Seq<char>) -> bool {
    1 <= n.len() <= 64 && (forall|i: int| 0 <= i < n.len() ==> is_name_char(n[i]))
}

/// The outcome of validating a metadata value: the first violated invariant,
/// checked in this order, or success.
pub open spec fn spec_validate(m: MetaView) -> Result<(), ValidationError> {
    if m.name.len() == 0 {
        Err(ValidationError::EmptyName)
    } else if m.name.len() > 64 {
        Err(ValidationError::NameTooLong)
    } else if exists|i: int| 0 <= i < m.name.len() && !is_name_char(#[trigger] m.name[i]) {
        Err(ValidationError::NameInvalidChar)
    } else if m.description.len() > 1024 {
        Err(ValidationError::DescriptionTooLong)
    } else {
        Ok(())
    }
}

impl SkillMetadata {
    /// Checks the naming and size invariants, returning the first violated one.
    pub fn validate(&self) -> (r: Result<(), ValidationError>)
        ensures
            r == spec_validate(self@),
    {
        let nlen = self.name.as_str().unicode_len();
        if nlen == 0 {
            return Err(ValidationError::EmptyName);
        }
        if nlen > 64 {
            return Err(ValidationError::NameTooLong);
        }
        let mut i: usize = 0;
        while i < nlen
            invariant
                0 <= i <= nlen,
                0 < nlen <= 64,
                nlen == self.name@.len(),
                forall|j: int| 0 <= j < i ==> is_name_char(self.name@[j]),
            decreases nlen - i,
        {
            if !is_name_char_exec(self.name.as_str().get_char(i)) {
                proof {
                    assert((i as int) < self@.name.len() && !is_name_char(self@.name[i as int]));
                }
                return Err(ValidationError::NameInvalidChar);
            }
            i = i + 1;
        }
        if self.description.as_str().unicode_len() > 1024 {
            return Err(ValidationError::DescriptionTooLong);
        }
        Ok(())
    }
}

/// Whether `c` is an uppercase ASCII letter or an underscore.
pub open spec fn is_upper_or_underscore(c: char) -> bool {
    let u = c as u32;
    (0x41 <= u && u <= 0x5A) || u == 0x5F
}

/// A name holding an uppercase ASCII letter or an underscore, or of length zero
/// or above 64, fails validation.
pub proof fn lemma_bad_name_rejected(m: MetaView)
    requires
        m.name.len() == 0 || m.name.len() > 64 || exists|i: int|
            0 <= i < m.name.len() && is_upper_or_underscore(#[trigger] m.name[i]),
    ensures
        spec_validate(m) is Err,
{
    if m.name.len() != 0 && m.name.len() <= 64 {
        let i = choose|i: int| 0 <= i < m.name.len() && is_upper_or_underscore(#[trigger] m.name[i]);
        assert(!is_name_char(m.name[i]));
    }
}

} // verus!
