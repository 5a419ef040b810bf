//! Where the region and the credentials come from.
use crate::error::{AnyError, AnyErrorView};
use crate::ini::{setting, Ini};
use crate::outside::{debug_text, is_json, json_member, json_string, quoted};
use crate::text::{
    from_chars, is_white, joined, law_splitting_undoes_joining,
    law_white_space_around_does_not_matter, lemma_split_not_empty, opt_text, same, split, split_of,
    strip_start, texts, to_chars, trim, trimmed,
};
use crate::types::{Credentials, CredentialsView};
use crate::xml::or_empty;
use vstd::prelude::*;
use vstd::string::*;

verus! {

/// The text, or an empty one.
fn text_or_empty(t: Option<String>) -> (r: String)
    ensures
        r@ == or_empty(opt_text(t)),
{
    match t {
        Some(t) => t,
        None => String::new(),
    }
}

/// The value of a key for a profile in the configuration file. A profile other than the default
/// one has a section `profile` and its name; where that does not set the key, the section of its
/// bare name may.
pub open spec fn value_in_profile(
    list: Seq<(Seq<char>, Seq<char>, Seq<char>)>,
    profile: Seq<char>,
    key: Seq<char>,
) -> Option<Seq<char>> {
    let section = if profile == "default"@ {
        "default"@
    } else {
        "profile "@ + profile
    };
    if setting(list, section, key) is Some {
        setting(list, section, key)
    } else {
        setting(list, profile, key)
    }
}

/// The value of a key for a profile in the configuration file.
pub fn profile_value(ini: &Ini, profile: &str, key: &str) -> (r: Option<String>)
    ensures
        opt_text(r) == value_in_profile(ini@, profile@, key@),
{
    let section = if same(profile, "default") {
        "default".to_owned()
    } else {
        let mut section = "profile ".to_owned();
        section.append(profile);
        section
    };
    match ini.get(section.as_str(), key) {
        Some(value) => Some(value),
        None => ini.get(profile, key),
    }
}

/// The credentials of a profile in the credentials file: a key and a secret, neither of them
/// empty, and a token where there is one.
pub open spec fn credentials_in_profile(
    list: Seq<(Seq<char>, Seq<char>, Seq<char>)>,
    profile: Seq<char>,
) -> Option<CredentialsView> {
    let key = or_empty(setting(list, profile, "aws_access_key_id"@));
    let secret = or_empty(setting(list, profile, "aws_secret_access_key"@));
    if key.len() == 0 || secret.len() == 0 {
        None
    } else {
        Some(
            CredentialsView {
                access_key_id: key,
                secret_access_key: secret,
                session_token: or_empty(setting(list, profile, "aws_session_token"@)),
                source: "profile:"@ + profile,
            },
        )
    }
}

/// The credentials of a profile in the credentials file.
pub fn profile_creds(ini: &Ini, profile: &str) -> (r: Option<Credentials>)
    ensures
        match r {
            Some(c) => credentials_in_profile(ini@, profile@) == Some(c@),
            None => credentials_in_profile(ini@, profile@) is None,
        },
{
    let access_key_id = text_or_empty(ini.get(profile, "aws_access_key_id"));
    let secret_access_key = text_or_empty(ini.get(profile, "aws_secret_access_key"));
    if access_key_id.as_str().is_empty() || secret_access_key.as_str().is_empty() {
        return None;
    }
    let session_token = text_or_empty(ini.get(profile, "aws_session_token"));
    let mut source = "profile:".to_owned();
    source.append(profile);
    Some(Credentials { access_key_id, secret_access_key, session_token, source })
}

/// The credentials that the environment names. A key without a secret is a failure.
pub open spec fn credentials_in_env(
    key: Option<Seq<char>>,
    secret: Option<Seq<char>>,
    token: Option<Seq<char>>,
) -> Option<Result<CredentialsView, AnyErrorView>> {
    if or_empty(key).len() == 0 {
        None
    } else if or_empty(secret).len() == 0 {
        Some(
            Err(
                AnyErrorView::Message(
                    "AWS_ACCESS_KEY_ID is set but AWS_SECRET_ACCESS_KEY is empty"@,
                ),
            ),
        )
    } else {
        Some(
            Ok(
                CredentialsView {
                    access_key_id: or_empty(key),
                    secret_access_key: or_empty(secret),
                    session_token: or_empty(token),
                    source: "env"@,
                },
            ),
        )
    }
}

/// The credentials in a JSON document, where it is one and names a key.
pub open spec fn credentials_in_json(text: Seq<char>, source: Seq<char>) -> Option<CredentialsView> {
    if !is_json(text) || or_empty(json_string(text, "AccessKeyId"@)).len() == 0 {
        None
    } else {
        Some(
            CredentialsView {
                access_key_id: or_empty(json_string(text, "AccessKeyId"@)),
                secret_access_key: or_empty(json_string(text, "SecretAccessKey"@)),
                session_token: or_empty(json_string(text, "Token"@)),
                source,
            },
        )
    }
}

/// The text of a member of a JSON document, or an empty one; nothing where the document is none.
fn member(text: &str, key: &str) -> (r: Option<String>)
    ensures
        match r {
            Some(t) => is_json(text@) && t@ == or_empty(json_string(text@, key@)),
            None => !is_json(text@),
        },
{
    match json_member(text, key) {
        Ok(t) => Some(text_or_empty(t)),
        Err(_) => None,
    }
}

/// Reads the credentials in a JSON document.
pub fn json_creds(text: &str, source: &str) -> (r: Option<Credentials>)
    ensures
        match r {
            Some(c) => credentials_in_json(text@, source@) == Some(c@),
            None => credentials_in_json(text@, source@) is None,
        },
{
    match (member(text, "AccessKeyId"), member(text, "SecretAccessKey"), member(text, "Token")) {
        (Some(access_key_id), Some(secret_access_key), Some(session_token)) => {
            if access_key_id.as_str().is_empty() {
                return None;
            }
            let source = source.to_owned();
            Some(Credentials { access_key_id, secret_access_key, session_token, source })
        },
        _ => None,
    }
}

/// What the search for credentials does next.
pub enum CredentialStep {
    /// It reads the credentials file.
    ReadProfile,
    /// It asks the container.
    AskContainer,
    /// It asks the instance.
    AskInstance,
    /// It is over.
    Over(Result<Credentials, AnyError>),
}

/// [`CredentialStep`] with the texts of its fields.
pub enum CredentialStepView {
    ReadProfile,
    AskContainer,
    AskInstance,
    Over(Result<CredentialsView, AnyErrorView>),
}

impl View for CredentialStep {
    type V = CredentialStepView;

    open spec fn view(&self) -> CredentialStepView {
        match self {
            CredentialStep::ReadProfile => CredentialStepView::ReadProfile,
            CredentialStep::AskContainer => CredentialStepView::AskContainer,
            CredentialStep::AskInstance => CredentialStepView::AskInstance,
            CredentialStep::Over(Ok(c)) => CredentialStepView::Over(Ok(c@)),
            CredentialStep::Over(Err(e)) => CredentialStepView::Over(Err(e@)),
        }
    }
}

/// A place where credentials can be found, and what it says.
pub enum CredentialSource {
    /// The variables of the environment.
    Environment { key: Option<String>, secret: Option<String>, token: Option<String> },
    /// The credentials file.
    Profile(Ini),
    /// The reply of the container, where there is one.
    Container(Option<String>),
    /// The role of the instance and the reply for it, where there are both.
    Instance(Option<(String, String)>),
}

/// [`CredentialSource`] with the texts of its fields.
pub enum CredentialSourceView {
    Environment { key: Option<Seq<char>>, secret: Option<Seq<char>>, token: Option<Seq<char>> },
    Profile(Seq<(Seq<char>, Seq<char>, Seq<char>)>),
    Container(Option<Seq<char>>),
    Instance(Option<(Seq<char>, Seq<char>)>),
}

impl View for CredentialSource {
    type V = CredentialSourceView;

    open spec fn view(&self) -> CredentialSourceView {
        match self {
            CredentialSource::Environment { key, secret, token } => {
                CredentialSourceView::Environment {
                    key: opt_text(*key),
                    secret: opt_text(*secret),
                    token: opt_text(*token),
                }
            },
            CredentialSource::Profile(ini) => CredentialSourceView::Profile(ini@),
            CredentialSource::Container(text) => CredentialSourceView::Container(opt_text(*text)),
            CredentialSource::Instance(Some(p)) => CredentialSourceView::Instance(
                Some((p.0@, p.1@)),
            ),
            CredentialSource::Instance(None) => CredentialSourceView::Instance(None),
        }
    }
}

/// The credentials, where the source has any.
pub open spec fn found_in(profile: Seq<char>, source: CredentialSourceView) -> Option<
    Result<CredentialsView, AnyErrorView>,
> {
    match source {
        CredentialSourceView::Environment { key, secret, token } => credentials_in_env(
            key,
            secret,
            token,
        ),
        CredentialSourceView::Profile(list) => match credentials_in_profile(list, profile) {
            Some(c) => Some(Ok(c)),
            None => None,
        },
        CredentialSourceView::Container(Some(text)) => match credentials_in_json(
            text,
            "ecs-container"@,
        ) {
            Some(c) => Some(Ok(c)),
            None => None,
        },
        CredentialSourceView::Container(None) => None,
        CredentialSourceView::Instance(Some(p)) => match credentials_in_json(
            p.1,
            "ec2-imds:"@ + p.0,
        ) {
            Some(c) => Some(Ok(c)),
            None => None,
        },
        CredentialSourceView::Instance(None) => None,
    }
}

/// How a search that found nothing is told.
pub open spec fn no_credentials(profile: Seq<char>) -> AnyErrorView {
    AnyErrorView::Message(
        "no credentials found in env, profile "@ + debug_text(profile) + ", ECS, or EC2 IMDS"@,
    )
}

/// What the search does next, once a source was read: it ends with what the source has, or goes on
/// to the next source.
pub open spec fn credential_step(
    profile: Seq<char>,
    source: CredentialSourceView,
) -> CredentialStepView {
    match found_in(profile, source) {
        Some(r) => CredentialStepView::Over(r),
        None => match source {
            CredentialSourceView::Environment { .. } => CredentialStepView::ReadProfile,
            CredentialSourceView::Profile(_) => CredentialStepView::AskContainer,
            CredentialSourceView::Container(_) => CredentialStepView::AskInstance,
            CredentialSourceView::Instance(_) => CredentialStepView::Over(
                Err(no_credentials(profile)),
            ),
        },
    }
}

/// Reads a source of credentials, and says what the search does next. It begins with the
/// environment.
pub fn resolve_credentials(profile: &str, source: CredentialSource) -> (r: CredentialStep)
    ensures
        r@ == credential_step(profile@, source@),
{
    match source {
        CredentialSource::Environment { key, secret, token } => {
            let access_key_id = text_or_empty(key);
            if access_key_id.as_str().is_empty() {
                return CredentialStep::ReadProfile;
            }
            let secret_access_key = text_or_empty(secret);
            if secret_access_key.as_str().is_empty() {
                return CredentialStep::Over(
                    Err(
                        AnyError::text(
                            "AWS_ACCESS_KEY_ID is set but AWS_SECRET_ACCESS_KEY is empty",
                        ),
                    ),
                );
            }
            let session_token = text_or_empty(token);
            let source = "env".to_owned();
            CredentialStep::Over(
                Ok(Credentials { access_key_id, secret_access_key, session_token, source }),
            )
        },
        CredentialSource::Profile(ini) => match profile_creds(&ini, profile) {
            Some(c) => CredentialStep::Over(Ok(c)),
            None => CredentialStep::AskContainer,
        },
        CredentialSource::Container(text) => {
            let found = match text {
                Some(text) => json_creds(text.as_str(), "ecs-container"),
                None => None,
            };
            match found {
                Some(c) => CredentialStep::Over(Ok(c)),
                None => CredentialStep::AskInstance,
            }
        },
        CredentialSource::Instance(reply) => {
            let found = match reply {
                Some((role, text)) => {
                    let mut name = "ec2-imds:".to_owned();
                    name.append(role.as_str());
                    json_creds(text.as_str(), name.as_str())
                },
                None => None,
            };
            match found {
                Some(c) => CredentialStep::Over(Ok(c)),
                None => {
                    let mut m = "no credentials found in env, profile ".to_owned();
                    m.append(quoted(profile).as_str());
                    m.append(", ECS, or EC2 IMDS");
                    CredentialStep::Over(Err(AnyError::Message(m)))
                },
            }
        },
    }
}

/// The text is there and is not empty.
pub open spec fn is_given(t: Option<Seq<char>>) -> bool {
    or_empty(t).len() > 0
}

/// What the search for the region does next.
pub enum RegionStep {
    /// It reads the configuration file.
    ReadProfile,
    /// It asks the instance.
    AskInstance,
    /// It is over.
    Over(Result<String, AnyError>),
}

/// [`RegionStep`] with the texts of its fields.
pub enum RegionStepView {
    ReadProfile,
    AskInstance,
    Over(Result<Seq<char>, AnyErrorView>),
}

impl View for RegionStep {
    type V = RegionStepView;

    open spec fn view(&self) -> RegionStepView {
        match self {
            RegionStep::ReadProfile => RegionStepView::ReadProfile,
            RegionStep::AskInstance => RegionStepView::AskInstance,
            RegionStep::Over(Ok(region)) => RegionStepView::Over(Ok(region@)),
            RegionStep::Over(Err(e)) => RegionStepView::Over(Err(e@)),
        }
    }
}

/// A place where the region can be found, and what it says.
pub enum RegionSource {
    /// The arguments of the program, and the two variables of the environment.
    Given { explicit: String, region: Option<String>, default_region: Option<String> },
    /// The configuration file.
    Profile(Ini),
    /// The identity document of the instance, where there is one.
    Instance(Option<String>),
}

/// [`RegionSource`] with the texts of its fields.
pub enum RegionSourceView {
    Given {
        explicit: Seq<char>,
        region: Option<Seq<char>>,
        default_region: Option<Seq<char>>,
    },
    Profile(Seq<(Seq<char>, Seq<char>, Seq<char>)>),
    Instance(Option<Seq<char>>),
}

impl View for RegionSource {
    type V = RegionSourceView;

    open spec fn view(&self) -> RegionSourceView {
        match self {
            RegionSource::Given { explicit, region, default_region } => RegionSourceView::Given {
                explicit: explicit@,
                region: opt_text(*region),
                default_region: opt_text(*default_region),
            },
            RegionSource::Profile(ini) => RegionSourceView::Profile(ini@),
            RegionSource::Instance(text) => RegionSourceView::Instance(opt_text(*text)),
        }
    }
}

/// The region that the identity document of an instance names, where it is JSON.
pub open spec fn region_in_json(text: Seq<char>) -> Seq<char> {
    if is_json(text) {
        or_empty(json_string(text, "region"@))
    } else {
        Seq::empty()
    }
}

/// The region that a source names, or an empty text.
pub open spec fn region_in(profile: Seq<char>, source: RegionSourceView) -> Seq<char> {
    match source {
        RegionSourceView::Given { explicit, region, default_region } => if explicit.len() > 0 {
            explicit
        } else if is_given(region) {
            or_empty(region)
        } else {
            or_empty(default_region)
        },
        RegionSourceView::Profile(list) => or_empty(value_in_profile(list, profile, "region"@)),
        RegionSourceView::Instance(Some(text)) => region_in_json(text),
        RegionSourceView::Instance(None) => Seq::empty(),
    }
}

/// How a search for the region that found nothing is told.
pub open spec fn no_region() -> AnyErrorView {
    AnyErrorView::Message(
        "region not found; pass --region or set AWS_REGION/AWS_DEFAULT_REGION/profile region"@,
    )
}

/// What the search for the region does next, once a source was read.
pub open spec fn region_step(profile: Seq<char>, source: RegionSourceView) -> RegionStepView {
    if region_in(profile, source).len() > 0 {
        RegionStepView::Over(Ok(region_in(profile, source)))
    } else {
        match source {
            RegionSourceView::Given { .. } => RegionStepView::ReadProfile,
            RegionSourceView::Profile(_) => RegionStepView::AskInstance,
            RegionSourceView::Instance(_) => RegionStepView::Over(Err(no_region())),
        }
    }
}

/// Reads a source of the region, and says what the search does next. It begins with what is given.
pub fn resolve_region(profile: &str, source: RegionSource) -> (r: RegionStep)
    ensures
        r@ == region_step(profile@, source@),
{
    match source {
        RegionSource::Given { explicit, region, default_region } => {
            if !explicit.as_str().is_empty() {
                return RegionStep::Over(Ok(explicit));
            }
            let region = text_or_empty(region);
            if !region.as_str().is_empty() {
                return RegionStep::Over(Ok(region));
            }
            let region = text_or_empty(default_region);
            if !region.as_str().is_empty() {
                return RegionStep::Over(Ok(region));
            }
            RegionStep::ReadProfile
        },
        RegionSource::Profile(ini) => {
            let region = text_or_empty(profile_value(&ini, profile, "region"));
            if !region.as_str().is_empty() {
                return RegionStep::Over(Ok(region));
            }
            RegionStep::AskInstance
        },
        RegionSource::Instance(text) => {
            let region = match text {
                Some(text) => text_or_empty(member(text.as_str(), "region")),
                None => String::new(),
            };
            if !region.as_str().is_empty() {
                return RegionStep::Over(Ok(region));
            }
            RegionStep::Over(
                Err(
                    AnyError::text(
                        "region not found; pass --region or set AWS_REGION/AWS_DEFAULT_REGION/profile region",
                    ),
                ),
            )
        },
    }
}

/// Where the container gives out credentials: at the full address, or at a path of the address
/// that containers share.
pub open spec fn container_address(full: Option<Seq<char>>, relative: Option<Seq<char>>) -> Option<
    Seq<char>,
> {
    let address = match full {
        Some(full) => full,
        None => match relative {
            Some(relative) => "http://169.254.170.2"@ + relative,
            None => Seq::empty(),
        },
    };
    if address.len() == 0 {
        None
    } else {
        Some(address)
    }
}

/// Where the container gives out credentials.
pub fn container_uri(full: Option<String>, relative: Option<String>) -> (r: Option<String>)
    ensures
        opt_text(r) == container_address(opt_text(full), opt_text(relative)),
{
    let uri = match full {
        Some(full) => full,
        None => match relative {
            Some(relative) => {
                let mut uri = "http://169.254.170.2".to_owned();
                uri.append(relative.as_str());
                uri
            },
            None => String::new(),
        },
    };
    if uri.as_str().is_empty() {
        None
    } else {
        Some(uri)
    }
}

/// The address of a path at the metadata service of the instance; leading slashes do not matter.
pub open spec fn metadata_address(path: Seq<char>) -> Seq<char> {
    "http://169.254.169.254/latest/"@ + strip_start(path, |c: char| c == '/')
}

/// The address of a path at the metadata service of the instance.
pub fn imds_url(path: &str) -> (r: String)
    ensures
        r@ == metadata_address(path@),
{
    let v = to_chars(path);
    let ghost slash = |c: char| c == '/';
    let mut a: usize = 0;
    assert(v@.skip(0) == v@);
    while a < v.len() && v[a] == '/'
        invariant
            a <= v@.len(),
            slash == (|c: char| c == '/'),
            strip_start(v@.skip(a as int), slash) == strip_start(v@, slash),
        decreases v@.len() - a,
    {
        assert(v@.skip(a as int).drop_first() == v@.skip(a + 1));
        a += 1;
    }
    let ghost left = v@.skip(a as int);
    assert(strip_start(left, slash) == left) by {
        if a < v@.len() {
            assert(left[0] == v@[a as int]);
        }
    }
    assert(v@.subrange(a as int, v@.len() as int) == left);
    let mut url = "http://169.254.169.254/latest/".to_owned();
    url.append(from_chars(&v, a, v.len()).as_str());
    url
}

/// The role of the instance: the first line of the list of roles.
pub open spec fn first_role(roles: Seq<char>) -> Option<Seq<char>> {
    let role = trimmed(split_of(roles, '\n')[0]);
    if role.len() == 0 {
        None
    } else {
        Some(role)
    }
}

/// The role of the instance.
pub fn imds_role(roles: &str) -> (r: Option<String>)
    ensures
        opt_text(r) == first_role(roles@),
{
    let lines = split(roles, '\n');
    proof {
        lemma_split_not_empty(roles@, '\n', Seq::empty());
    }
    assert(texts(lines@)[0] == lines@[0]@);
    let role = trim(lines[0].as_str());
    if role.as_str().is_empty() {
        None
    } else {
        Some(role)
    }
}

/// The path of the credentials of a role at the metadata service.
pub fn role_path(role: &str) -> (r: String)
    ensures
        r@ == "meta-data/iam/security-credentials/"@ + role@,
{
    let mut path = "meta-data/iam/security-credentials/".to_owned();
    path.append(role);
    path
}

/// How the search for credentials ends, where each source says this.
pub open spec fn search_credentials(
    profile: Seq<char>,
    environment: CredentialSourceView,
    file: CredentialSourceView,
    container: CredentialSourceView,
    instance: CredentialSourceView,
) -> CredentialStepView {
    let a = credential_step(profile, environment);
    let b = if a is ReadProfile {
        credential_step(profile, file)
    } else {
        a
    };
    let c = if b is AskContainer {
        credential_step(profile, container)
    } else {
        b
    };
    if c is AskInstance {
        credential_step(profile, instance)
    } else {
        c
    }
}

/// The credentials come from the first source that has any: the environment, the profile, the
/// container, the instance. The search fails where the environment has a key without a secret, and
/// where no source has any. What it finds has a key.
pub proof fn law_credentials_come_from_the_first_source(
    profile: Seq<char>,
    environment: CredentialSourceView,
    file: CredentialSourceView,
    container: CredentialSourceView,
    instance: CredentialSourceView,
)
    requires
        environment is Environment,
        file is Profile,
        container is Container,
        instance is Instance,
    ensures
        ({
            let end = search_credentials(profile, environment, file, container, instance);
            let sources = seq![environment, file, container, instance];
            &&& end is Over
            &&& forall|i: int|
                0 <= i < 4 && found_in(profile, #[trigger] sources[i]) is Some && (forall|j: int|
                    0 <= j < i ==> found_in(profile, #[trigger] sources[j]) is None)
                    ==> found_in(profile, sources[i]) == Some(end->Over_0)
            &&& (forall|i: int| 0 <= i < 4 ==> found_in(profile, #[trigger] sources[i]) is None)
                ==> end->Over_0 == Err::<CredentialsView, AnyErrorView>(no_credentials(profile))
            &&& end->Over_0 matches Ok(c) ==> c.access_key_id.len() > 0
        }),
{
    let sources = seq![environment, file, container, instance];
    assert(sources[0] == environment && sources[1] == file && sources[2] == container && sources[3]
        == instance);
}

/// How the search for the region ends, where each source says this.
pub open spec fn search_region(
    profile: Seq<char>,
    given: RegionSourceView,
    file: RegionSourceView,
    instance: RegionSourceView,
) -> RegionStepView {
    let a = region_step(profile, given);
    let b = if a is ReadProfile {
        region_step(profile, file)
    } else {
        a
    };
    if b is AskInstance {
        region_step(profile, instance)
    } else {
        b
    }
}

/// The region comes from the first source that names one: the arguments, the two variables of the
/// environment, the profile, the instance; and the search fails only where none does.
pub proof fn law_region_comes_from_the_first_source(
    profile: Seq<char>,
    explicit: Seq<char>,
    region: Option<Seq<char>>,
    default_region: Option<Seq<char>>,
    list: Seq<(Seq<char>, Seq<char>, Seq<char>)>,
    document: Option<Seq<char>>,
)
    ensures
        ({
            let end = search_region(
                profile,
                RegionSourceView::Given { explicit, region, default_region },
                RegionSourceView::Profile(list),
                RegionSourceView::Instance(document),
            );
            let named = seq![
                explicit,
                or_empty(region),
                or_empty(default_region),
                or_empty(value_in_profile(list, profile, "region"@)),
                match document {
                    Some(text) => region_in_json(text),
                    None => Seq::empty(),
                },
            ];
            &&& end is Over
            &&& forall|i: int|
                0 <= i < 5 && (#[trigger] named[i]).len() > 0 && (forall|j: int|
                    0 <= j < i ==> (#[trigger] named[j]).len() == 0) ==> end->Over_0 == Ok::<
                    Seq<char>,
                    AnyErrorView,
                >(named[i])
            &&& (forall|i: int| 0 <= i < 5 ==> (#[trigger] named[i]).len() == 0) ==> end->Over_0
                == Err::<Seq<char>, AnyErrorView>(no_region())
        }),
{
    let named = seq![
        explicit,
        or_empty(region),
        or_empty(default_region),
        or_empty(value_in_profile(list, profile, "region"@)),
        match document {
            Some(text) => region_in_json(text),
            None => Seq::empty(),
        },
    ];
    assert(named[0] == explicit && named[1] == or_empty(region) && named[2] == or_empty(
        default_region,
    ));
    assert(named[3] == or_empty(value_in_profile(list, profile, "region"@)));
    assert(named[4] == match document {
        Some(text) => region_in_json(text),
        None => Seq::empty(),
    });
}

/// The default profile has the section `default` of the configuration file. Another profile has
/// the section `profile` and its name, and what that does not set is looked for in the section of
/// its bare name.
pub proof fn law_profiles_have_sections(
    list: Seq<(Seq<char>, Seq<char>, Seq<char>)>,
    profile: Seq<char>,
    key: Seq<char>,
)
    ensures
        value_in_profile(list, "default"@, key) == setting(list, "default"@, key),
        profile != "default"@ && setting(list, "profile "@ + profile, key) is Some ==> value_in_profile(
            list,
            profile,
            key,
        ) == setting(list, "profile "@ + profile, key),
        profile != "default"@ && setting(list, "profile "@ + profile, key) is None ==> value_in_profile(
            list,
            profile,
            key,
        ) == setting(list, profile, key),
{
}

/// A region that a profile sets is found: for the default profile in the section `default`, and
/// for another one in its own section; the instance is asked only where none is set.
pub proof fn law_region_of_the_profile_is_found(
    list: Seq<(Seq<char>, Seq<char>, Seq<char>)>,
    profile: Seq<char>,
    region: Seq<char>,
)
    requires
        region.len() > 0,
    ensures
        setting(list, "default"@, "region"@) == Some(region) ==> region_step(
            "default"@,
            RegionSourceView::Profile(list),
        ) == RegionStepView::Over(Ok(region)),
        profile != "default"@ && setting(list, "profile "@ + profile, "region"@) == Some(region)
            ==> region_step(profile, RegionSourceView::Profile(list)) == RegionStepView::Over(
            Ok(region),
        ),
        setting(list, "profile "@ + profile, "region"@) is None && setting(
            list,
            profile,
            "region"@,
        ) == Some(region) ==> region_step(profile, RegionSourceView::Profile(list))
            == RegionStepView::Over(Ok(region)),
        setting(list, "profile "@ + profile, "region"@) is None && setting(
            list,
            profile,
            "region"@,
        ) is None ==> region_step(profile, RegionSourceView::Profile(list)) is AskInstance,
{
}

/// The region that is given wins over the environment, `AWS_REGION` over `AWS_DEFAULT_REGION`, and
/// the instance is believed last.
pub proof fn law_given_region_is_taken(
    profile: Seq<char>,
    explicit: Seq<char>,
    region: Seq<char>,
    more: Option<Seq<char>>,
    other: Option<Seq<char>>,
    text: Seq<char>,
)
    requires
        region.len() > 0,
    ensures
        region_step(
            profile,
            RegionSourceView::Given { explicit: region, region: more, default_region: other },
        ) == RegionStepView::Over(Ok(region)),
        region_step(
            profile,
            RegionSourceView::Given {
                explicit: Seq::empty(),
                region: Some(region),
                default_region: other,
            },
        ) == RegionStepView::Over(Ok(region)),
        region_step(
            profile,
            RegionSourceView::Given {
                explicit: Seq::empty(),
                region: None,
                default_region: Some(region),
            },
        ) == RegionStepView::Over(Ok(region)),
        region_step(
            profile,
            RegionSourceView::Given {
                explicit: Seq::empty(),
                region: Some(Seq::empty()),
                default_region: Some(region),
            },
        ) == RegionStepView::Over(Ok(region)),
        region_step(
            profile,
            RegionSourceView::Given {
                explicit: Seq::empty(),
                region: None,
                default_region: None,
            },
        ) is ReadProfile,
        is_json(text) && json_string(text, "region"@) == Some(region) ==> region_step(
            profile,
            RegionSourceView::Instance(Some(text)),
        ) == RegionStepView::Over(Ok(region)),
        !is_json(text) || json_string(text, "region"@) is None ==> region_step(
            profile,
            RegionSourceView::Instance(Some(text)),
        ) == RegionStepView::Over(
            Err(
                AnyErrorView::Message(
                    "region not found; pass --region or set AWS_REGION/AWS_DEFAULT_REGION/profile region"@,
                ),
            ),
        ),
{
}

/// A key and a secret of the environment are the credentials, with the token where there is one; a
/// key without a secret is a failure, and without a key the profile is read.
pub proof fn law_environment_is_believed(
    profile: Seq<char>,
    key: Seq<char>,
    secret: Seq<char>,
    token: Option<Seq<char>>,
    any: Option<Seq<char>>,
)
    requires
        key.len() > 0,
        secret.len() > 0,
    ensures
        credential_step(
            profile,
            CredentialSourceView::Environment { key: Some(key), secret: Some(secret), token },
        ) == CredentialStepView::Over(
            Ok(
                CredentialsView {
                    access_key_id: key,
                    secret_access_key: secret,
                    session_token: match token {
                        Some(t) => t,
                        None => Seq::empty(),
                    },
                    source: "env"@,
                },
            ),
        ),
        credential_step(
            profile,
            CredentialSourceView::Environment { key: Some(key), secret: None, token },
        ) == CredentialStepView::Over(
            Err(
                AnyErrorView::Message(
                    "AWS_ACCESS_KEY_ID is set but AWS_SECRET_ACCESS_KEY is empty"@,
                ),
            ),
        ),
        credential_step(
            profile,
            CredentialSourceView::Environment { key: Some(key), secret: Some(Seq::empty()), token },
        ) == CredentialStepView::Over(
            Err(
                AnyErrorView::Message(
                    "AWS_ACCESS_KEY_ID is set but AWS_SECRET_ACCESS_KEY is empty"@,
                ),
            ),
        ),
        credential_step(
            profile,
            CredentialSourceView::Environment { key: None, secret: any, token },
        ) is ReadProfile,
        credential_step(
            profile,
            CredentialSourceView::Environment { key: Some(Seq::empty()), secret: any, token },
        ) is ReadProfile,
{
}

/// A profile that sets a key and a secret, neither of them empty, has these credentials, with its
/// token where it sets one; where it lacks one of the two, the container is asked.
pub proof fn law_profile_is_believed(
    list: Seq<(Seq<char>, Seq<char>, Seq<char>)>,
    profile: Seq<char>,
)
    ensures
        ({
            let key = setting(list, profile, "aws_access_key_id"@);
            let secret = setting(list, profile, "aws_secret_access_key"@);
            let token = setting(list, profile, "aws_session_token"@);
            if key is Some && key->0.len() > 0 && secret is Some && secret->0.len() > 0 {
                credential_step(profile, CredentialSourceView::Profile(list))
                    == CredentialStepView::Over(
                    Ok(
                        CredentialsView {
                            access_key_id: key->0,
                            secret_access_key: secret->0,
                            session_token: match token {
                                Some(t) => t,
                                None => Seq::empty(),
                            },
                            source: "profile:"@ + profile,
                        },
                    ),
                )
            } else {
                credential_step(profile, CredentialSourceView::Profile(list)) is AskContainer
            }
        }),
{
}

/// A JSON reply that names a key has the credentials, whether the container gives it or the
/// instance; without one the container is followed by the instance, and the instance by failure.
pub proof fn law_replies_are_believed(profile: Seq<char>, text: Seq<char>, role: Seq<char>)
    ensures
        ({
            let key = json_string(text, "AccessKeyId"@);
            let creds = CredentialsView {
                access_key_id: key->0,
                secret_access_key: match json_string(text, "SecretAccessKey"@) {
                    Some(t) => t,
                    None => Seq::empty(),
                },
                session_token: match json_string(text, "Token"@) {
                    Some(t) => t,
                    None => Seq::empty(),
                },
                source: "ecs-container"@,
            };
            let container = credential_step(profile, CredentialSourceView::Container(Some(text)));
            let instance = credential_step(
                profile,
                CredentialSourceView::Instance(Some((role, text))),
            );
            if is_json(text) && key is Some && key->0.len() > 0 {
                &&& container == CredentialStepView::Over(Ok(creds))
                &&& instance == CredentialStepView::Over(
                    Ok(CredentialsView { source: "ec2-imds:"@ + role, ..creds }),
                )
            } else {
                &&& container is AskInstance
                &&& instance == CredentialStepView::Over(
                    Err(
                        AnyErrorView::Message(
                            "no credentials found in env, profile "@ + debug_text(profile)
                                + ", ECS, or EC2 IMDS"@,
                        ),
                    ),
                )
            }
        }),
        credential_step(profile, CredentialSourceView::Container(None)) is AskInstance,
        credential_step(profile, CredentialSourceView::Instance(None)) == CredentialStepView::Over(
            Err(
                AnyErrorView::Message(
                    "no credentials found in env, profile "@ + debug_text(profile)
                        + ", ECS, or EC2 IMDS"@,
                ),
            ),
        ),
{
}

/// The container is asked at its full address, or at its relative one where there is no full one;
/// an empty address is none.
pub proof fn law_container_has_an_address(full: Seq<char>, relative: Option<Seq<char>>, r: Seq<char>)
    ensures
        full.len() > 0 ==> container_address(Some(full), relative) == Some(full),
        container_address(Some(Seq::empty()), relative) is None,
        container_address(None, Some(r)) == Some("http://169.254.170.2"@ + r),
        container_address(None, None) is None,
{
    reveal_strlit("http://169.254.170.2");
}

/// The metadata service is asked below its address, and slashes in front of a path do not matter.
pub proof fn law_metadata_has_an_address(n: nat, path: Seq<char>)
    requires
        path.len() > 0 ==> path[0] != '/',
    ensures
        metadata_address(Seq::new(n, |i: int| '/') + path) == "http://169.254.169.254/latest/"@ + path,
    decreases n,
{
    let slashes = Seq::new(n, |i: int| '/');
    let slash = |c: char| c == '/';
    if n == 0 {
        assert(slashes + path == path);
        assert(strip_start(path, slash) == path);
    } else {
        let fewer = Seq::new((n - 1) as nat, |i: int| '/');
        assert((slashes + path)[0] == '/');
        assert((slashes + path).drop_first() == fewer + path);
        law_metadata_has_an_address((n - 1) as nat, path);
    }
}

/// The role of an instance is the first line of the list of roles, without the white space around
/// it; a blank first line is no role.
pub proof fn law_first_role_is_taken(
    a: Seq<char>,
    role: Seq<char>,
    b: Seq<char>,
    more: Seq<Seq<char>>,
)
    requires
        forall|i: int| 0 <= i < a.len() ==> is_white(#[trigger] a[i]),
        forall|i: int| 0 <= i < b.len() ==> is_white(#[trigger] b[i]),
        role.len() > 0 ==> !is_white(role[0]) && !is_white(role.last()),
        !(a + role + b).contains('\n'),
        forall|i: int| 0 <= i < more.len() ==> !(#[trigger] more[i]).contains('\n'),
    ensures
        first_role(joined(seq![a + role + b] + more, seq!['\n'])) == (if role.len() > 0 {
            Some(role)
        } else {
            None
        }),
{
    let lines = seq![a + role + b] + more;
    assert forall|i: int| 0 <= i < lines.len() implies !(#[trigger] lines[i]).contains('\n') by {
        if i > 0 {
            assert(lines[i] == more[i - 1]);
        }
    }
    law_splitting_undoes_joining(lines, '\n');
    law_white_space_around_does_not_matter(a, role, b);
}

}
