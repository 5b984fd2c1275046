//! Which Android API levels the runtime supports, and the choice of a runtime bundle.

use vstd::prelude::*;
use crate::text::{lines, spec_lines, chars_eq, chars_of, parse_u32, spec_parse_u32, split_chars, split_fields, string_from_chars,
    str_eq, has_prefix, starts_with};

verus! {

/// How well an API level is supported.
#[derive(Debug, Clone, Copy, PartialEq, Eq, PartialOrd, Ord, Structural)]
pub enum ApiTier {
    Unsupported,
    Secondary,
    Primary,
}

/// An Android API level.
#[derive(Debug, Clone, Copy, PartialEq, Eq, PartialOrd, Ord, Structural)]
pub struct AndroidApi(pub u32);

impl AndroidApi {
    /// Android 15.
    pub fn api_35() -> (r: AndroidApi)
        ensures
            r.0 == 35,
    {
        AndroidApi(35)
    }

    /// Android 16.
    pub fn api_36() -> (r: AndroidApi)
        ensures
            r.0 == 36,
    {
        AndroidApi(36)
    }
}

/// A runtime bundle's record in a bundle manifest.
#[derive(Debug, Clone)]
pub struct BundleTierMetadata {
    pub api: AndroidApi,
    pub tier: ApiTier,
    pub tag: String,
    pub digest: Option<String>,
    pub status: String,
}

/// Whether two records hold the same values.
pub open spec fn same_bundle(a: BundleTierMetadata, b: BundleTierMetadata) -> bool {
    &&& a.api == b.api
    &&& a.tier == b.tier
    &&& a.tag@ == b.tag@
    &&& a.status@ == b.status@
    &&& match (a.digest, b.digest) {
        (Some(x), Some(y)) => x@ == y@,
        (None, None) => true,
        _ => false,
    }
}

impl BundleTierMetadata {
    /// A copy of the record.
    pub fn duplicate(&self) -> (r: BundleTierMetadata)
        ensures
            same_bundle(r, *self),
    {
        BundleTierMetadata {
            api: self.api,
            tier: self.tier,
            tag: self.tag.clone(),
            digest: match &self.digest {
                Some(d) => Some(d.clone()),
                None => None,
            },
            status: self.status.clone(),
        }
    }
}

/// The supported API levels: one primary, one secondary.
#[derive(Debug, Clone, Copy, PartialEq, Eq, Structural)]
pub struct ApiPolicy {
    pub primary: AndroidApi,
    pub secondary: AndroidApi,
}

impl Default for ApiPolicy {
    /// API 36 primary, API 35 secondary.
    fn default() -> (r: ApiPolicy)
        ensures
            r.primary.0 == 36,
            r.secondary.0 == 35,
    {
        ApiPolicy { primary: AndroidApi(36), secondary: AndroidApi(35) }
    }
}

/// The policy `ApiPolicy::default` gives.
pub open spec fn default_policy() -> ApiPolicy {
    ApiPolicy { primary: AndroidApi(36), secondary: AndroidApi(35) }
}

#[derive(Debug, Clone, Copy, PartialEq, Eq, Structural)]
pub enum ApiPolicyError {
    InvalidManifest,
    UnsupportedApi(AndroidApi),
    TierMismatch { api: AndroidApi, expected: ApiTier, actual: ApiTier },
    BundleNotReady(AndroidApi),
    MissingDigest(AndroidApi),
    NoSupportedBundle,
    ApkMinSdkTooHigh { min_sdk: u32, api: AndroidApi },
    ApkTargetSdkTooHigh { target_sdk: u32, api: AndroidApi },
}

/// The tier a policy gives an API level.
pub open spec fn spec_classify(p: ApiPolicy, api: u32) -> ApiTier {
    if api == p.primary.0 {
        ApiTier::Primary
    } else if api == p.secondary.0 {
        ApiTier::Secondary
    } else {
        ApiTier::Unsupported
    }
}

/// Why a bundle record is not usable, if it is not: unsupported level, a tier that disagrees
/// with the policy, not ready, or no digest.
pub open spec fn spec_validate(p: ApiPolicy, m: BundleTierMetadata) -> Result<(), ApiPolicyError> {
    let expected = spec_classify(p, m.api.0);
    if expected == ApiTier::Unsupported {
        Err(ApiPolicyError::UnsupportedApi(m.api))
    } else if m.tier != expected {
        Err(ApiPolicyError::TierMismatch { api: m.api, expected, actual: m.tier })
    } else if m.status@ != "ready"@ {
        Err(ApiPolicyError::BundleNotReady(m.api))
    } else if m.digest is None || m.digest->Some_0@.len() == 0 || m.digest->Some_0@ == "-"@ {
        Err(ApiPolicyError::MissingDigest(m.api))
    } else {
        Ok(())
    }
}

/// Whether an APK with these SDK requirements runs at `api`, and if not, why.
pub open spec fn spec_compat(p: ApiPolicy, api: AndroidApi, min_sdk: Option<u32>, target_sdk: Option<u32>) -> Result<(), ApiPolicyError> {
    if spec_classify(p, api.0) == ApiTier::Unsupported {
        Err(ApiPolicyError::UnsupportedApi(api))
    } else if min_sdk matches Some(v) && v > api.0 {
        Err(ApiPolicyError::ApkMinSdkTooHigh { min_sdk: min_sdk->Some_0, api })
    } else if target_sdk matches Some(v) && v > api.0 {
        Err(ApiPolicyError::ApkTargetSdkTooHigh { target_sdk: target_sdk->Some_0, api })
    } else {
        Ok(())
    }
}

/// Whether a bundle is valid, and compatible with the APK's SDK requirements when they are
/// given.
pub open spec fn usable(p: ApiPolicy, m: BundleTierMetadata, sdk: Option<(Option<u32>, Option<u32>)>) -> bool {
    spec_validate(p, m) is Ok && match sdk {
        Some((a, b)) => spec_compat(p, m.api, a, b) is Ok,
        None => true,
    }
}

/// The first index at or after `k` of a usable bundle with tier `tier`.
pub open spec fn first_with(bundles: Seq<BundleTierMetadata>, p: ApiPolicy, sdk: Option<(Option<u32>, Option<u32>)>, tier: ApiTier, k: int) -> Option<int>
    decreases bundles.len() - k,
{
    if k < 0 || k >= bundles.len() {
        None
    } else if usable(p, bundles[k], sdk) && bundles[k].tier == tier {
        Some(k)
    } else {
        first_with(bundles, p, sdk, tier, k + 1)
    }
}

/// The bundle chosen among the usable ones: the first primary, else the first secondary.
pub open spec fn chosen(bundles: Seq<BundleTierMetadata>, p: ApiPolicy, sdk: Option<(Option<u32>, Option<u32>)>) -> Option<int> {
    match first_with(bundles, p, sdk, ApiTier::Primary, 0) {
        Some(i) => Some(i),
        None => first_with(bundles, p, sdk, ApiTier::Secondary, 0),
    }
}

/// `first_with` finds the first usable bundle of the tier, and none when there is none.
pub proof fn lemma_first_with(bundles: Seq<BundleTierMetadata>, p: ApiPolicy, sdk: Option<(Option<u32>, Option<u32>)>, tier: ApiTier, k: int)
    requires
        0 <= k <= bundles.len(),
    ensures
        first_with(bundles, p, sdk, tier, k) matches Some(i) ==> k <= i < bundles.len() && usable(p, bundles[i], sdk)
            && bundles[i].tier == tier && forall|j: int| k <= j < i ==> !(usable(p, bundles[j], sdk) && bundles[j].tier == tier),
        first_with(bundles, p, sdk, tier, k) is None ==> forall|j: int| k <= j < bundles.len() ==> !(usable(p, bundles[j], sdk) && bundles[j].tier == tier),
    decreases bundles.len() - k,
{
    if k < bundles.len() {
        lemma_first_with(bundles, p, sdk, tier, k + 1);
    }
}

/// A usable primary bundle is always preferred: whenever one exists, the chosen bundle is
/// primary, and it is the first usable primary one.
pub proof fn lemma_resolve_prefers_primary(bundles: Seq<BundleTierMetadata>, p: ApiPolicy, sdk: Option<(Option<u32>, Option<u32>)>, k: int)
    requires
        0 <= k < bundles.len(),
        usable(p, bundles[k], sdk),
        bundles[k].tier == ApiTier::Primary,
    ensures
        chosen(bundles, p, sdk) matches Some(i) && bundles[i].tier == ApiTier::Primary && i <= k,
{
    lemma_first_with(bundles, p, sdk, ApiTier::Primary, 0);
}

/// A line of a bundle manifest as a record: tab-separated api, android version, tag, digest
/// (`-` for none), tier and status.
pub open spec fn spec_manifest_line(line: Seq<char>) -> Option<(u32, ApiTier, Seq<char>, Option<Seq<char>>, Seq<char>)> {
    let f = split_fields(line, '\t');
    if f.len() < 6 || spec_parse_u32(f[0]) is None {
        None
    } else {
        let tier = if f[4] == "primary"@ {
            Some(ApiTier::Primary)
        } else if f[4] == "secondary"@ {
            Some(ApiTier::Secondary)
        } else if f[4] == "unsupported"@ {
            Some(ApiTier::Unsupported)
        } else {
            None
        };
        match tier {
            Some(t) => Some((spec_parse_u32(f[0])->Some_0, t, f[2], if f[3] == "-"@ { None } else { Some(f[3]) }, f[5])),
            None => None,
        }
    }
}

/// A record read from a manifest line matches the line.
pub open spec fn record_matches(m: BundleTierMetadata, r: (u32, ApiTier, Seq<char>, Option<Seq<char>>, Seq<char>)) -> bool {
    &&& m.api.0 == r.0
    &&& m.tier == r.1
    &&& m.tag@ == r.2
    &&& match r.3 {
        Some(d) => m.digest matches Some(s) && s@ == d,
        None => m.digest is None,
    }
    &&& m.status@ == r.4
}

impl BundleTierMetadata {
    /// Reads one tab-separated manifest line.
    pub fn from_manifest_line(line: &str) -> (r: Result<BundleTierMetadata, ApiPolicyError>)
        ensures
            match spec_manifest_line(line@) {
                None => r == Err::<BundleTierMetadata, ApiPolicyError>(ApiPolicyError::InvalidManifest),
                Some(rec) => r matches Ok(m) && record_matches(m, rec),
            },
    {
        let chars = chars_of(line);
        let fields = split_chars(chars.as_slice(), '\t');
        if fields.len() < 6 {
            return Err(ApiPolicyError::InvalidManifest);
        }
        let api = match parse_u32(fields[0].as_slice()) {
            Some(a) => a,
            None => return Err(ApiPolicyError::InvalidManifest),
        };
        let t = fields[4].as_slice();
        let primary = chars_of("primary");
        let secondary = chars_of("secondary");
        let unsupported = chars_of("unsupported");
        let tier = if chars_eq(t, primary.as_slice()) {
            ApiTier::Primary
        } else if chars_eq(t, secondary.as_slice()) {
            ApiTier::Secondary
        } else if chars_eq(t, unsupported.as_slice()) {
            ApiTier::Unsupported
        } else {
            return Err(ApiPolicyError::InvalidManifest);
        };
        let dash = chars_of("-");
        let digest = if chars_eq(fields[3].as_slice(), dash.as_slice()) {
            None
        } else {
            Some(string_from_chars(fields[3].as_slice()))
        };
        Ok(BundleTierMetadata {
            api: AndroidApi(api),
            tier,
            tag: string_from_chars(fields[2].as_slice()),
            digest,
            status: string_from_chars(fields[5].as_slice()),
        })
    }

    /// A record for `api`, with the tier the default policy gives it.
    pub fn new(api: u32, tag: &str, digest: Option<String>, status: &str) -> (r: BundleTierMetadata)
        ensures
            r.api.0 == api,
            r.tier == spec_classify(ApiPolicy { primary: AndroidApi(36), secondary: AndroidApi(35) }, api),
            r.tag@ == tag@,
            r.digest == digest,
            r.status@ == status@,
    {
        let policy = ApiPolicy::default();
        BundleTierMetadata {
            api: AndroidApi(api),
            tier: policy.classify(api),
            tag: tag.to_string(),
            digest,
            status: status.to_string(),
        }
    }
}

impl ApiPolicy {
    /// The tier of an API level.
    pub fn classify(self, api: u32) -> (r: ApiTier)
        ensures
            r == spec_classify(self, api),
    {
        if api == self.primary.0 {
            ApiTier::Primary
        } else if api == self.secondary.0 {
            ApiTier::Secondary
        } else {
            ApiTier::Unsupported
        }
    }

    /// Checks that a bundle record is usable under this policy.
    pub fn validate(&self, metadata: &BundleTierMetadata) -> (r: Result<(), ApiPolicyError>)
        ensures
            r == spec_validate(*self, *metadata),
    {
        let expected = self.classify(metadata.api.0);
        if expected == ApiTier::Unsupported {
            return Err(ApiPolicyError::UnsupportedApi(metadata.api));
        }
        if metadata.tier != expected {
            return Err(ApiPolicyError::TierMismatch { api: metadata.api, expected, actual: metadata.tier });
        }
        if !str_eq(metadata.status.as_str(), "ready") {
            return Err(ApiPolicyError::BundleNotReady(metadata.api));
        }
        match &metadata.digest {
            None => Err(ApiPolicyError::MissingDigest(metadata.api)),
            Some(d) => {
                let dc = chars_of(d.as_str());
                if dc.len() == 0 || str_eq(d.as_str(), "-") {
                    Err(ApiPolicyError::MissingDigest(metadata.api))
                } else {
                    Ok(())
                }
            },
        }
    }

    /// Whether an APK with these SDK requirements runs at `api`.
    pub fn check_apk_compatibility(&self, api: AndroidApi, min_sdk: Option<u32>, target_sdk: Option<u32>) -> (r: Result<(), ApiPolicyError>)
        ensures
            r == spec_compat(*self, api, min_sdk, target_sdk),
    {
        if self.classify(api.0) == ApiTier::Unsupported {
            return Err(ApiPolicyError::UnsupportedApi(api));
        }
        if let Some(value) = min_sdk {
            if value > api.0 {
                return Err(ApiPolicyError::ApkMinSdkTooHigh { min_sdk: value, api });
            }
        }
        if let Some(value) = target_sdk {
            if value > api.0 {
                return Err(ApiPolicyError::ApkTargetSdkTooHigh { target_sdk: value, api });
            }
        }
        Ok(())
    }

    /// The first valid primary bundle, else the first valid secondary one.
    pub fn resolve<'a>(&self, bundles: &'a [BundleTierMetadata]) -> (r: Result<&'a BundleTierMetadata, ApiPolicyError>)
        ensures
            match chosen(bundles@, *self, None) {
                Some(i) => r matches Ok(b) && *b == bundles@[i],
                None => r == Err::<&BundleTierMetadata, ApiPolicyError>(ApiPolicyError::NoSupportedBundle),
            },
    {
        proof {
            lemma_first_with(bundles@, *self, None, ApiTier::Primary, 0);
            lemma_first_with(bundles@, *self, None, ApiTier::Secondary, 0);
        }
        match self.find_first(bundles, ApiTier::Primary, None) {
            Some(i) => Ok(&bundles[i]),
            None => match self.find_first(bundles, ApiTier::Secondary, None) {
                Some(i) => Ok(&bundles[i]),
                None => Err(ApiPolicyError::NoSupportedBundle),
            },
        }
    }

    /// The first compatible valid primary bundle for an APK, else the first compatible valid
    /// secondary one.
    pub fn resolve_for_apk<'a>(&self, bundles: &'a [BundleTierMetadata], min_sdk: Option<u32>, target_sdk: Option<u32>) -> (r: Result<&'a BundleTierMetadata, ApiPolicyError>)
        ensures
            match chosen(bundles@, *self, Some((min_sdk, target_sdk))) {
                Some(i) => r matches Ok(b) && *b == bundles@[i],
                None => r == Err::<&BundleTierMetadata, ApiPolicyError>(ApiPolicyError::NoSupportedBundle),
            },
    {
        let sdk = Some((min_sdk, target_sdk));
        proof {
            lemma_first_with(bundles@, *self, sdk, ApiTier::Primary, 0);
            lemma_first_with(bundles@, *self, sdk, ApiTier::Secondary, 0);
        }
        match self.find_first(bundles, ApiTier::Primary, sdk) {
            Some(i) => Ok(&bundles[i]),
            None => match self.find_first(bundles, ApiTier::Secondary, sdk) {
                Some(i) => Ok(&bundles[i]),
                None => Err(ApiPolicyError::NoSupportedBundle),
            },
        }
    }

    /// The first bundle of `tier` that is valid (and compatible with `sdk`, when given).
    fn find_first(&self, bundles: &[BundleTierMetadata], tier: ApiTier, sdk: Option<(Option<u32>, Option<u32>)>) -> (r: Option<usize>)
        ensures
            r == match first_with(bundles@, *self, sdk, tier, 0) {
                Some(i) => Some(i as usize),
                None => None::<usize>,
            },
            r matches Some(i) ==> i < bundles@.len(),
    {
        let mut i: usize = 0;
        while i < bundles.len()
            invariant
                0 <= i <= bundles@.len(),
                first_with(bundles@, *self, sdk, tier, 0) == first_with(bundles@, *self, sdk, tier, i as int),
            decreases bundles@.len() - i,
        {
            let b = &bundles[i];
            let valid = self.validate(b).is_ok();
            let compatible = match sdk {
                Some((a, t)) => self.check_apk_compatibility(b.api, a, t).is_ok(),
                None => true,
            };
            if valid && compatible && b.tier == tier {
                return Some(i);
            }
            i = i + 1;
        }
        None
    }
}

/// Whether a manifest line holds a record: not empty and not the header line.
pub open spec fn is_record_line(l: Seq<char>) -> bool {
    l.len() > 0 && !has_prefix(l, "api\t"@)
}

/// The records of the manifest lines `0..k`, or None when one of them is malformed.
pub open spec fn manifest_records(ls: Seq<Seq<char>>, k: int) -> Option<Seq<(u32, ApiTier, Seq<char>, Option<Seq<char>>, Seq<char>)>>
    decreases k,
{
    if k <= 0 || k > ls.len() {
        Some(Seq::empty())
    } else {
        match manifest_records(ls, k - 1) {
            None => None,
            Some(rs) => if !is_record_line(ls[k - 1]) {
                Some(rs)
            } else {
                match spec_manifest_line(ls[k - 1]) {
                    None => None,
                    Some(r) => Some(rs.push(r)),
                }
            },
        }
    }
}

proof fn lemma_records_none(ls: Seq<Seq<char>>, k: int, n: int)
    requires
        0 < k <= n,
        n == ls.len(),
        manifest_records(ls, k) is None,
    ensures
        manifest_records(ls, n) is None,
    decreases n - k,
{
    if k < n {
        lemma_records_none(ls, k + 1, n);
    }
}

impl ApiPolicy {
    /// Reads every record of a bundle manifest, skipping empty lines and the header.
    pub fn resolve_manifest(&self, manifest: &str) -> (r: Result<Vec<BundleTierMetadata>, ApiPolicyError>)
        ensures
            ({
                let ls = spec_lines(manifest@);
                match manifest_records(ls, ls.len() as int) {
                    None => r == Err::<Vec<BundleTierMetadata>, ApiPolicyError>(ApiPolicyError::InvalidManifest),
                    Some(rs) => r matches Ok(v) && v@.len() == rs.len()
                        && forall|i: int| 0 <= i < rs.len() ==> record_matches(#[trigger] v@[i], rs[i]),
                }
            }),
    {
        let text = chars_of(manifest);
        let ls = lines(text.as_slice());
        let ghost sl = spec_lines(manifest@);
        let header = chars_of("api\t");
        let mut out: Vec<BundleTierMetadata> = Vec::new();
        let mut i: usize = 0;
        while i < ls.len()
            invariant
                0 <= i <= ls@.len(),
                ls@.len() == sl.len(),
                sl == spec_lines(manifest@),
                header@ == "api\t"@,
                forall|j: int| 0 <= j < ls@.len() ==> #[trigger] ls@[j]@ == sl[j],
                manifest_records(sl, i as int) matches Some(rs) && out@.len() == rs.len()
                    && forall|j: int| 0 <= j < rs.len() ==> record_matches(#[trigger] out@[j], rs[j]),
            decreases ls@.len() - i,
        {
            let l = &ls[i];
            if l.len() > 0 && !starts_with(l.as_slice(), header.as_slice()) {
                let line = string_from_chars(l.as_slice());
                match BundleTierMetadata::from_manifest_line(line.as_str()) {
                    Ok(m) => {
                        out.push(m);
                    },
                    Err(e) => {
                        proof {
                            lemma_records_none(sl, i as int + 1, sl.len() as int);
                        }
                        return Err(e);
                    },
                }
            }
            i = i + 1;
        }
        Ok(out)
    }
}

/// A bundle record is accepted exactly when its level is the policy's primary level and it
/// says so, or its secondary level (not also the primary) and it says so, its status is
/// `ready`, and it carries a digest other than an empty one or `-`.
pub proof fn lemma_validate_accepts(p: ApiPolicy, m: BundleTierMetadata)
    ensures
        (spec_validate(p, m) is Ok) <==> (
            ((m.api.0 == p.primary.0 && m.tier == ApiTier::Primary)
                || (m.api.0 == p.secondary.0 && m.api.0 != p.primary.0 && m.tier == ApiTier::Secondary))
            && m.status@ == "ready"@
            && m.digest is Some && m.digest->Some_0@.len() > 0 && m.digest->Some_0@ != "-"@),
{
}

/// An APK runs at a supported level exactly when neither its minimum nor its target SDK, where
/// given, is above that level.
pub proof fn lemma_compat_accepts(p: ApiPolicy, api: AndroidApi, min_sdk: Option<u32>, target_sdk: Option<u32>)
    ensures
        (spec_compat(p, api, min_sdk, target_sdk) is Ok) <==> (
            (api.0 == p.primary.0 || api.0 == p.secondary.0)
            && (min_sdk matches Some(v) ==> v <= api.0)
            && (target_sdk matches Some(v) ==> v <= api.0)),
{
}

/// The chosen bundle is usable, and it is a primary one whenever some usable primary bundle
/// exists; no bundle is chosen only when none is usable with a primary or secondary tier.
pub proof fn lemma_chosen_prefers_primary(bundles: Seq<BundleTierMetadata>, p: ApiPolicy, sdk: Option<(Option<u32>, Option<u32>)>)
    ensures
        chosen(bundles, p, sdk) matches Some(i) ==> 0 <= i < bundles.len() && usable(p, bundles[i], sdk)
            && ((exists|j: int| 0 <= j < bundles.len() && usable(p, bundles[j], sdk) && #[trigger] bundles[j].tier == ApiTier::Primary)
                ==> bundles[i].tier == ApiTier::Primary),
        chosen(bundles, p, sdk) is None ==> forall|j: int| 0 <= j < bundles.len() ==> !(usable(p, #[trigger] bundles[j], sdk)
            && (bundles[j].tier == ApiTier::Primary || bundles[j].tier == ApiTier::Secondary)),
{
    lemma_first_with(bundles, p, sdk, ApiTier::Primary, 0);
    lemma_first_with(bundles, p, sdk, ApiTier::Secondary, 0);
}

} // verus!
