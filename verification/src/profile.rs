//! Tier profiles, lock groups and the validation rules they obey.

use vstd::prelude::*;

use crate::text::{is_blank, str_is_blank};

verus! {

/// Errors returned when a tier profile or a lock fails validation.
#[derive(Debug, Clone, Copy, PartialEq, Eq, Structural)]
pub enum ValidationError {
    DivisionRequiresTournament,
    InvalidGroupSize,
    ValueOutOfRange,
    MissingIdentity,
    InvalidValueKey,
    InvalidSampleFloor,
    InvalidPatch,
}

impl ValidationError {
    /// The stable machine-readable code of the error.
    pub fn code(&self) -> (code: &'static str)
        ensures
            code@ == match *self {
                ValidationError::DivisionRequiresTournament => "division_requires_tournament"@,
                ValidationError::InvalidGroupSize => "invalid_group_size"@,
                ValidationError::ValueOutOfRange => "value_out_of_range"@,
                ValidationError::MissingIdentity => "missing_identity"@,
                ValidationError::InvalidValueKey => "invalid_value_key"@,
                ValidationError::InvalidSampleFloor => "invalid_sample_floor"@,
                ValidationError::InvalidPatch => "invalid_patch"@,
            },
    {
        match self {
            ValidationError::DivisionRequiresTournament => "division_requires_tournament",
            ValidationError::InvalidGroupSize => "invalid_group_size",
            ValidationError::ValueOutOfRange => "value_out_of_range",
            ValidationError::MissingIdentity => "missing_identity",
            ValidationError::InvalidValueKey => "invalid_value_key",
            ValidationError::InvalidSampleFloor => "invalid_sample_floor",
            ValidationError::InvalidPatch => "invalid_patch",
        }
    }

    /// The text of the error's message.
    pub open spec fn message_text(&self) -> Seq<char> {
        match *self {
            ValidationError::DivisionRequiresTournament =>
                "division filters are supported only for tournament scope"@,
            ValidationError::InvalidGroupSize =>
                "the selected group has an invalid number of values"@,
            ValidationError::ValueOutOfRange => "a value is outside its supported range"@,
            ValidationError::MissingIdentity => "a required identifier or label is missing"@,
            ValidationError::InvalidValueKey =>
                "a lock contains an unsupported or incomplete value key"@,
            ValidationError::InvalidSampleFloor => "a custom sample floor must be at least one"@,
            ValidationError::InvalidPatch => "patch must not be blank"@,
        }
    }

    /// The human-readable message of the error.
    pub fn message(&self) -> (message: &'static str)
        ensures
            message@ == self.message_text(),
    {
        match self {
            ValidationError::DivisionRequiresTournament =>
                "division filters are supported only for tournament scope",
            ValidationError::InvalidGroupSize =>
                "the selected group has an invalid number of values",
            ValidationError::ValueOutOfRange => "a value is outside its supported range",
            ValidationError::MissingIdentity => "a required identifier or label is missing",
            ValidationError::InvalidValueKey =>
                "a lock contains an unsupported or incomplete value key",
            ValidationError::InvalidSampleFloor => "a custom sample floor must be at least one",
            ValidationError::InvalidPatch => "patch must not be blank",
        }
    }
}

#[derive(Debug, Clone, Copy, PartialEq, Eq, Structural)]
pub enum GameScope {
    Tournament,
    Solo,
    SoloAndTournament,
}

#[derive(Debug, Clone, Copy, PartialEq, Eq, Structural)]
pub enum RegionFilter {
    All,
    Kr,
    Cn,
    Eu,
    Na,
    Sa,
    Jp,
}

#[derive(Debug, Clone, Copy, PartialEq, Eq, Structural)]
pub enum DivisionFilter {
    All,
    First,
    Second,
}

#[derive(Debug, Clone, Copy, PartialEq, Eq, PartialOrd, Ord, Hash, Structural)]
pub enum RoleFilter {
    All,
    Top,
    Jungle,
    Mid,
    Bot,
    Support,
}

#[derive(Debug, Clone, Copy, PartialEq, Eq, Structural)]
pub enum TierPreset {
    Classic,
    Fearless,
    HardFearless,
}

/// How many games a champion needs before it gets a tier.
#[derive(Debug, Clone, Copy, PartialEq, Eq, Structural)]
pub enum SampleMode {
    Auto,
    Minimum(u32),
}

/// The user's choice of which matches feed the tier list and how they are scored.
#[derive(Debug, Clone, PartialEq, Eq)]
pub struct TierProfile {
    pub enabled: bool,
    pub scope: GameScope,
    pub region: RegionFilter,
    pub division: DivisionFilter,
    pub role: RoleFilter,
    pub patch: Option<String>,
    pub sample: SampleMode,
    pub preset: TierPreset,
}

/// The error, if any, that validating a profile with these fields reports.
pub open spec fn profile_error(
    scope: GameScope,
    division: DivisionFilter,
    patch: Option<Seq<char>>,
    sample: SampleMode,
) -> Option<ValidationError> {
    if division != DivisionFilter::All && scope != GameScope::Tournament {
        Some(ValidationError::DivisionRequiresTournament)
    } else if sample == SampleMode::Minimum(0) {
        Some(ValidationError::InvalidSampleFloor)
    } else if patch matches Some(p) && is_blank(p) {
        Some(ValidationError::InvalidPatch)
    } else {
        None
    }
}

impl TierProfile {
    pub open spec fn patch_view(&self) -> Option<Seq<char>> {
        match self.patch {
            Some(p) => Some(p@),
            None => None,
        }
    }

    /// Whether this is the profile shipped by default.
    pub open spec fn is_shipped_default(&self) -> bool {
        &&& self.enabled
        &&& self.scope == GameScope::SoloAndTournament
        &&& self.region == RegionFilter::All
        &&& self.division == DivisionFilter::All
        &&& self.role == RoleFilter::All
        &&& self.patch_view() == Some("latest"@)
        &&& self.sample == SampleMode::Auto
        &&& self.preset == TierPreset::Classic
    }

    /// The profile shipped by default: every match of the latest patch, automatic sample floor.
    pub fn default_profile() -> (profile: Self)
        ensures
            profile.enabled,
            profile.scope == GameScope::SoloAndTournament,
            profile.region == RegionFilter::All,
            profile.division == DivisionFilter::All,
            profile.role == RoleFilter::All,
            profile.patch_view() == Some("latest"@),
            profile.sample == SampleMode::Auto,
            profile.preset == TierPreset::Classic,
    {
        TierProfile {
            enabled: true,
            scope: GameScope::SoloAndTournament,
            region: RegionFilter::All,
            division: DivisionFilter::All,
            role: RoleFilter::All,
            patch: Some("latest".to_owned()),
            sample: SampleMode::Auto,
            preset: TierPreset::Classic,
        }
    }

    /// Rejects division filters outside tournament scope, a zero sample floor and a blank patch.
    pub fn validate(&self) -> (result: Result<(), ValidationError>)
        ensures
            result matches Err(e) ==> profile_error(
                self.scope,
                self.division,
                self.patch_view(),
                self.sample,
            ) == Some(e),
            result is Ok ==> profile_error(self.scope, self.division, self.patch_view(), self.sample)
                is None,
    {
        if self.division != DivisionFilter::All && self.scope != GameScope::Tournament {
            return Err(ValidationError::DivisionRequiresTournament);
        }
        if let SampleMode::Minimum(0) = self.sample {
            return Err(ValidationError::InvalidSampleFloor);
        }
        if let Some(patch) = &self.patch {
            if str_is_blank(patch.as_str()) {
                return Err(ValidationError::InvalidPatch);
            }
        }
        Ok(())
    }

    /// Games a champion needs before it is scored: five by default, else the custom minimum.
    pub fn sample_floor(&self) -> (floor: usize)
        ensures
            floor == match self.sample {
                SampleMode::Auto => 5,
                SampleMode::Minimum(games) => games as int,
            },
    {
        match self.sample {
            SampleMode::Auto => 5,
            SampleMode::Minimum(games) => games as usize,
        }
    }
}

impl Default for TierProfile {
    fn default() -> (profile: Self)
        ensures
            profile.enabled,
            profile.scope == GameScope::SoloAndTournament,
            profile.region == RegionFilter::All,
            profile.division == DivisionFilter::All,
            profile.role == RoleFilter::All,
            profile.patch_view() == Some("latest"@),
            profile.sample == SampleMode::Auto,
            profile.preset == TierPreset::Classic,
    {
        Self::default_profile()
    }
}

} // verus!
