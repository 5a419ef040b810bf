//! What the program is asked to do: its arguments, and which of them it accepts.
use crate::error::{or_default, AnyError, AnyErrorView};
use crate::number::{decimal, law_decimal_is_read_back, parse_u64, parsed_u64, NumberError};
use crate::text::{
    from_chars, lemma_split_not_empty, same, split, split_from, split_of, starts_with, texts,
    to_chars,
};
use vstd::prelude::*;
use vstd::string::*;

verus! {

/// One run of the program.
#[derive(Debug)]
pub struct Config {
    pub ami_id: String,
    pub region: String,
    pub profile: String,
    pub s3_uri: String,
    pub bucket: String,
    pub create_bucket: bool,
    pub cleanup: bool,
    pub yes: bool,
    pub dry_run: bool,
    pub verbose: bool,
    pub wait: bool,
    pub poll_seconds: u64,
    pub timeout_minutes: u64,
    pub storage_class: String,
}

/// [`Config`] with the texts of its fields.
pub struct ConfigView {
    pub ami_id: Seq<char>,
    pub region: Seq<char>,
    pub profile: Seq<char>,
    pub s3_uri: Seq<char>,
    pub bucket: Seq<char>,
    pub create_bucket: bool,
    pub cleanup: bool,
    pub yes: bool,
    pub dry_run: bool,
    pub verbose: bool,
    pub wait: bool,
    pub poll_seconds: nat,
    pub timeout_minutes: nat,
    pub storage_class: Seq<char>,
}

impl View for Config {
    type V = ConfigView;

    open spec fn view(&self) -> ConfigView {
        ConfigView {
            ami_id: self.ami_id@,
            region: self.region@,
            profile: self.profile@,
            s3_uri: self.s3_uri@,
            bucket: self.bucket@,
            create_bucket: self.create_bucket,
            cleanup: self.cleanup,
            yes: self.yes,
            dry_run: self.dry_run,
            verbose: self.verbose,
            wait: self.wait,
            poll_seconds: self.poll_seconds as nat,
            timeout_minutes: self.timeout_minutes as nat,
            storage_class: self.storage_class@,
        }
    }
}

impl Clone for Config {
    fn clone(&self) -> (r: Self)
        ensures
            r == *self,
    {
        Config {
            ami_id: self.ami_id.clone(),
            region: self.region.clone(),
            profile: self.profile.clone(),
            s3_uri: self.s3_uri.clone(),
            bucket: self.bucket.clone(),
            create_bucket: self.create_bucket,
            cleanup: self.cleanup,
            yes: self.yes,
            dry_run: self.dry_run,
            verbose: self.verbose,
            wait: self.wait,
            poll_seconds: self.poll_seconds,
            timeout_minutes: self.timeout_minutes,
            storage_class: self.storage_class.clone(),
        }
    }
}

/// A run for which nothing was asked: it waits, and archives to `STANDARD_IA`.
pub open spec fn default_config() -> ConfigView {
    ConfigView {
        ami_id: Seq::empty(),
        region: Seq::empty(),
        profile: Seq::empty(),
        s3_uri: Seq::empty(),
        bucket: Seq::empty(),
        create_bucket: false,
        cleanup: false,
        yes: false,
        dry_run: false,
        verbose: false,
        wait: true,
        poll_seconds: 15,
        timeout_minutes: 720,
        storage_class: "STANDARD_IA"@,
    }
}

impl Default for Config {
    fn default() -> (r: Self)
        ensures
            r@ == default_config(),
    {
        Config {
            ami_id: String::new(),
            region: String::new(),
            profile: String::new(),
            s3_uri: String::new(),
            bucket: String::new(),
            create_bucket: false,
            cleanup: false,
            yes: false,
            dry_run: false,
            verbose: false,
            wait: true,
            poll_seconds: 15,
            timeout_minutes: 720,
            storage_class: "STANDARD_IA".to_owned(),
        }
    }
}

/// An argument that asks for the help.
pub open spec fn asks_help(arg: Seq<char>) -> bool {
    arg == "--help"@ || arg == "-h"@
}

/// The run with the switch `arg` thrown; nothing where `arg` is no switch.
pub open spec fn with_switch(c: ConfigView, arg: Seq<char>) -> Option<ConfigView> {
    if arg == "--create-bucket"@ {
        Some(ConfigView { create_bucket: true, ..c })
    } else if arg == "--cleanup"@ {
        Some(ConfigView { cleanup: true, ..c })
    } else if arg == "--yes"@ || arg == "-y"@ {
        Some(ConfigView { yes: true, ..c })
    } else if arg == "--dry-run"@ {
        Some(ConfigView { dry_run: true, ..c })
    } else if arg == "--verbose"@ || arg == "-v"@ {
        Some(ConfigView { verbose: true, ..c })
    } else if arg == "--wait"@ {
        Some(ConfigView { wait: true, ..c })
    } else if arg == "--no-wait"@ {
        Some(ConfigView { wait: false, ..c })
    } else {
        None
    }
}

/// An argument that a value has to follow.
pub open spec fn takes_value(arg: Seq<char>) -> bool {
    ||| arg == "--ami-id"@
    ||| arg == "--region"@
    ||| arg == "--profile"@
    ||| arg == "--s3-uri"@
    ||| arg == "--storage-class"@
    ||| arg == "--poll-seconds"@
    ||| arg == "--timeout-minutes"@
}

/// How a text that is no number is told.
pub open spec fn number_message(e: NumberError) -> Seq<char> {
    match e {
        NumberError::Empty => "cannot parse integer from empty string"@,
        NumberError::InvalidDigit => "invalid digit found in string"@,
        NumberError::TooLarge => "number too large to fit in target type"@,
    }
}

/// The run with the value of `arg` set to `value`.
pub open spec fn with_value(c: ConfigView, arg: Seq<char>, value: Seq<char>) -> Result<
    ConfigView,
    AnyErrorView,
> {
    if arg == "--ami-id"@ {
        Ok(ConfigView { ami_id: value, ..c })
    } else if arg == "--region"@ {
        Ok(ConfigView { region: value, ..c })
    } else if arg == "--profile"@ {
        Ok(ConfigView { profile: value, ..c })
    } else if arg == "--s3-uri"@ {
        Ok(ConfigView { s3_uri: value, ..c })
    } else if arg == "--storage-class"@ {
        Ok(ConfigView { storage_class: value, ..c })
    } else {
        match parsed_u64(value) {
            Ok(n) => if arg == "--poll-seconds"@ {
                Ok(ConfigView { poll_seconds: n, ..c })
            } else {
                Ok(ConfigView { timeout_minutes: n, ..c })
            },
            Err(e) => Err(AnyErrorView::Message(number_message(e))),
        }
    }
}

/// The value that stands first in `rest`: any text but one that begins with two hyphens.
pub open spec fn value_of(rest: Seq<Seq<char>>, name: Seq<char>) -> Result<
    Seq<char>,
    AnyErrorView,
> {
    if rest.len() > 0 && !"--"@.is_prefix_of(rest[0]) {
        Ok(rest[0])
    } else {
        Err(AnyErrorView::Message(name + " requires a value"@))
    }
}

/// The run that `args` ask for on top of `c`, or nothing where they ask for the help. The first
/// argument that cannot be taken is the error.
pub open spec fn parsed_from(args: Seq<Seq<char>>, c: ConfigView) -> Result<
    Option<ConfigView>,
    AnyErrorView,
>
    decreases args.len(),
{
    if args.len() == 0 {
        Ok(Some(c))
    } else if asks_help(args[0]) {
        Ok(None)
    } else if with_switch(c, args[0]) is Some {
        parsed_from(args.skip(1), with_switch(c, args[0])->0)
    } else if !takes_value(args[0]) {
        Err(AnyErrorView::Message("unknown argument: "@ + args[0]))
    } else {
        match value_of(args.skip(1), args[0]) {
            Err(e) => Err(e),
            Ok(value) => match with_value(c, args[0], value) {
                Err(e) => Err(e),
                Ok(next) => parsed_from(args.skip(2), next),
            },
        }
    }
}

/// Throws the switch `arg`; false where it is none.
fn set_switch(c: &mut Config, arg: &str) -> (r: bool)
    ensures
        r == (with_switch(old(c)@, arg@) is Some),
        r ==> final(c)@ == with_switch(old(c)@, arg@)->0,
        !r ==> *final(c) == *old(c),
{
    if same(arg, "--create-bucket") {
        c.create_bucket = true;
    } else if same(arg, "--cleanup") {
        c.cleanup = true;
    } else if same(arg, "--yes") || same(arg, "-y") {
        c.yes = true;
    } else if same(arg, "--dry-run") {
        c.dry_run = true;
    } else if same(arg, "--verbose") || same(arg, "-v") {
        c.verbose = true;
    } else if same(arg, "--wait") {
        c.wait = true;
    } else if same(arg, "--no-wait") {
        c.wait = false;
    } else {
        return false;
    }
    true
}

/// The text of a number that cannot be read.
fn number_error(e: NumberError) -> (r: AnyError)
    ensures
        r@ == AnyErrorView::Message(number_message(e)),
{
    AnyError::text(
        match e {
            NumberError::Empty => "cannot parse integer from empty string",
            NumberError::InvalidDigit => "invalid digit found in string",
            NumberError::TooLarge => "number too large to fit in target type",
        },
    )
}

/// Sets the value of `arg`.
fn set_value(c: &mut Config, arg: &str, value: String) -> (r: Result<(), AnyError>)
    requires
        takes_value(arg@),
    ensures
        match r {
            Ok(_) => with_value(old(c)@, arg@, value@) == Ok::<ConfigView, AnyErrorView>(final(c)@),
            Err(e) => with_value(old(c)@, arg@, value@) == Err::<ConfigView, AnyErrorView>(e@),
        },
{
    if same(arg, "--ami-id") {
        c.ami_id = value;
    } else if same(arg, "--region") {
        c.region = value;
    } else if same(arg, "--profile") {
        c.profile = value;
    } else if same(arg, "--s3-uri") {
        c.s3_uri = value;
    } else if same(arg, "--storage-class") {
        c.storage_class = value;
    } else {
        match parse_u64(value.as_str()) {
            Ok(n) => {
                if same(arg, "--poll-seconds") {
                    c.poll_seconds = n;
                } else {
                    c.timeout_minutes = n;
                }
            },
            Err(e) => {
                return Err(number_error(e));
            },
        }
    }
    Ok(())
}

/// The value that stands at index `at` of `args`, for the argument `name`.
fn take_value(args: &Vec<String>, at: usize, name: &str) -> (r: Result<String, AnyError>)
    requires
        at <= args@.len(),
    ensures
        match r {
            Ok(v) => value_of(texts(args@).skip(at as int), name@) == Ok::<Seq<char>, AnyErrorView>(
                v@,
            ),
            Err(e) => value_of(texts(args@).skip(at as int), name@) == Err::<
                Seq<char>,
                AnyErrorView,
            >(e@),
        },
{
    if at < args.len() && !starts_with(args[at].as_str(), "--") {
        Ok(args[at].clone())
    } else {
        let mut m = name.to_owned();
        m.append(" requires a value");
        Err(AnyError::Message(m))
    }
}

/// Whether a value has to follow `arg`.
fn wants_value(arg: &str) -> (r: bool)
    ensures
        r == takes_value(arg@),
{
    same(arg, "--ami-id") || same(arg, "--region") || same(arg, "--profile") || same(
        arg,
        "--s3-uri",
    ) || same(arg, "--storage-class") || same(arg, "--poll-seconds") || same(
        arg,
        "--timeout-minutes",
    )
}

/// Reads the arguments of the program, without its name. There is no run where they ask for the
/// help.
pub fn parse_args(args: &Vec<String>) -> (r: Result<Option<Config>, AnyError>)
    ensures
        match r {
            Ok(Some(c)) => parsed_from(texts(args@), default_config()) == Ok::<
                Option<ConfigView>,
                AnyErrorView,
            >(Some(c@)),
            Ok(None) => parsed_from(texts(args@), default_config()) == Ok::<
                Option<ConfigView>,
                AnyErrorView,
            >(None),
            Err(e) => parsed_from(texts(args@), default_config()) == Err::<
                Option<ConfigView>,
                AnyErrorView,
            >(e@),
        },
{
    let ghost all = texts(args@);
    let mut c = Config::default();
    let mut i: usize = 0;
    assert(all.skip(0) == all);
    while i < args.len()
        invariant
            i <= args.len(),
            all == texts(args@),
            parsed_from(all.skip(i as int), c@) == parsed_from(all, default_config()),
        decreases args.len() - i,
    {
        let arg = args[i].as_str();
        assert(all.skip(i as int).skip(1) == all.skip(i + 1));
        assert(all.skip(i as int)[0] == arg@);
        if same(arg, "--help") || same(arg, "-h") {
            return Ok(None);
        }
        if set_switch(&mut c, arg) {
            i += 1;
            continue;
        }
        if !wants_value(arg) {
            let mut m = "unknown argument: ".to_owned();
            m.append(arg);
            return Err(AnyError::Message(m));
        }
        match take_value(args, i + 1, arg) {
            Ok(value) => {
                if let Err(e) = set_value(&mut c, arg, value) {
                    return Err(e);
                }
                assert(i + 1 < args.len());
                assert(all.skip(i as int).skip(2) == all.skip(i + 2));
                i += 2;
            },
            Err(e) => {
                return Err(e);
            },
        }
    }
    assert(all.skip(i as int).len() == 0);
    Ok(Some(c))
}

/// A hexadecimal digit, in either case.
pub open spec fn is_hex_digit(c: char) -> bool {
    '0' <= c <= '9' || 'a' <= c <= 'f' || 'A' <= c <= 'F'
}

/// The identifier of an image: `ami-` and 8 to 17 hexadecimal digits.
pub open spec fn valid_ami_id(s: Seq<char>) -> bool {
    &&& "ami-"@.is_prefix_of(s)
    &&& 8 <= s.skip(4).len() <= 17
    &&& forall|i: int| 0 <= i < s.skip(4).len() ==> is_hex_digit(#[trigger] s.skip(4)[i])
}

/// Whether `s` can be the identifier of an image.
pub fn is_valid_ami_id(s: &str) -> (r: bool)
    ensures
        r == valid_ami_id(s@),
{
    proof {
        reveal_strlit("ami-");
    }
    if !starts_with(s, "ami-") {
        return false;
    }
    let v = to_chars(s);
    if v.len() < 12 || v.len() > 21 {
        return false;
    }
    for i in 4..v.len()
        invariant
            v@ == s@,
            forall|j: int| 0 <= j < i - 4 ==> is_hex_digit(#[trigger] s@.skip(4)[j]),
    {
        let c = v[i];
        assert(s@.skip(4)[i - 4] == c);
        if !(('0' <= c && c <= '9') || ('a' <= c && c <= 'f') || ('A' <= c && c <= 'F')) {
            return false;
        }
    }
    true
}

/// All texts but the first are empty.
pub open spec fn empty_behind_first(parts: Seq<Seq<char>>) -> bool {
    forall|i: int| 1 <= i < parts.len() ==> (#[trigger] parts[i]).len() == 0
}

/// The bucket at whose root a URI points.
pub open spec fn bucket_of(s: Seq<char>) -> Result<Seq<char>, AnyErrorView> {
    let parts = split_of(s.skip(5), '/');
    if !"s3://"@.is_prefix_of(s) {
        Err(AnyErrorView::Message("invalid --s3-uri: expected s3://bucket, got "@ + s))
    } else if parts[0].len() == 0 || !empty_behind_first(parts) {
        Err(AnyErrorView::Message("--s3-uri must point to a bucket root only, got "@ + s))
    } else {
        Ok(parts[0])
    }
}

/// Reads the bucket out of a URI that points at the bucket's root.
pub fn parse_s3_bucket(s: &str) -> (r: Result<String, AnyError>)
    ensures
        match r {
            Ok(b) => bucket_of(s@) == Ok::<Seq<char>, AnyErrorView>(b@),
            Err(e) => bucket_of(s@) == Err::<Seq<char>, AnyErrorView>(e@),
        },
{
    proof {
        reveal_strlit("s3://");
    }
    if !starts_with(s, "s3://") {
        let mut m = "invalid --s3-uri: expected s3://bucket, got ".to_owned();
        m.append(s);
        return Err(AnyError::Message(m));
    }
    let v = to_chars(s);
    let rest = from_chars(&v, 5, v.len());
    assert(rest@ == s@.skip(5));
    let parts = split(rest.as_str(), '/');
    proof {
        lemma_split_not_empty(rest@, '/', Seq::empty());
    }
    assert(texts(parts@)[0] == parts@[0]@);
    let mut root = !parts[0].as_str().is_empty();
    for i in 1..parts.len()
        invariant
            root == (texts(parts@)[0].len() > 0 && forall|j: int|
                1 <= j < i ==> (#[trigger] texts(parts@)[j]).len() == 0),
    {
        assert(texts(parts@)[i as int] == parts@[i as int]@);
        if !parts[i].as_str().is_empty() {
            root = false;
        }
    }
    if root {
        Ok(parts[0].clone())
    } else {
        let mut m = "--s3-uri must point to a bucket root only, got ".to_owned();
        m.append(s);
        Err(AnyError::Message(m))
    }
}

/// The run with a value for everything that was left out, and with a lower limit on its times.
pub open spec fn completed(c: ConfigView, env_profile: Seq<char>) -> ConfigView {
    ConfigView {
        profile: or_default(or_default(c.profile, env_profile), "default"@),
        poll_seconds: if c.poll_seconds < 5 {
            5
        } else {
            c.poll_seconds
        },
        timeout_minutes: if c.timeout_minutes < 1 {
            1
        } else {
            c.timeout_minutes
        },
        storage_class: or_default(c.storage_class, "STANDARD_IA"@),
        ..c
    }
}

/// The run as it is left by [`validate_config`], and what that returns.
pub open spec fn validated(c: ConfigView, env_profile: Seq<char>) -> (
    ConfigView,
    Result<(), AnyErrorView>,
) {
    let full = completed(c, env_profile);
    if c.ami_id.len() == 0 {
        (c, Err(AnyErrorView::Message("--ami-id is required"@)))
    } else if !valid_ami_id(c.ami_id) {
        (c, Err(AnyErrorView::Message("invalid --ami-id: "@ + c.ami_id)))
    } else if c.s3_uri.len() == 0 {
        (full, Ok(()))
    } else {
        match bucket_of(c.s3_uri) {
            Ok(bucket) => (ConfigView { bucket, ..full }, Ok(())),
            Err(e) => (full, Err(e)),
        }
    }
}

/// Checks a run and completes it. `env_profile` is the profile that the environment names, or
/// empty.
pub fn validate_config(cfg: &mut Config, env_profile: &str) -> (r: Result<(), AnyError>)
    ensures
        match r {
            Ok(_) => validated(old(cfg)@, env_profile@) == (
                final(cfg)@,
                Ok::<(), AnyErrorView>(()),
            ),
            Err(e) => validated(old(cfg)@, env_profile@) == (
                final(cfg)@,
                Err::<(), AnyErrorView>(e@),
            ),
        },
{
    if cfg.ami_id.as_str().is_empty() {
        return Err(AnyError::text("--ami-id is required"));
    }
    if !is_valid_ami_id(cfg.ami_id.as_str()) {
        let mut m = "invalid --ami-id: ".to_owned();
        m.append(cfg.ami_id.as_str());
        return Err(AnyError::Message(m));
    }
    if cfg.profile.as_str().is_empty() {
        cfg.profile = env_profile.to_owned();
    }
    if cfg.profile.as_str().is_empty() {
        cfg.profile = "default".to_owned();
    }
    if cfg.poll_seconds < 5 {
        cfg.poll_seconds = 5;
    }
    if cfg.timeout_minutes < 1 {
        cfg.timeout_minutes = 1;
    }
    if cfg.storage_class.as_str().is_empty() {
        cfg.storage_class = "STANDARD_IA".to_owned();
    }
    if !cfg.s3_uri.as_str().is_empty() {
        match parse_s3_bucket(cfg.s3_uri.as_str()) {
            Ok(bucket) => {
                cfg.bucket = bucket;
            },
            Err(e) => {
                return Err(e);
            },
        }
    }
    Ok(())
}

/// A text of slashes.
pub open spec fn slashes(n: nat) -> Seq<char> {
    Seq::new(n, |i: int| '/')
}

/// A URI names a bucket exactly where it is `s3://`, the bucket's name and any number of slashes;
/// the name is not empty and holds no slash.
pub proof fn law_bucket_stands_at_the_root(s: Seq<char>, bucket: Seq<char>)
    ensures
        bucket_of(s) == Ok::<Seq<char>, AnyErrorView>(bucket) <==> {
            &&& bucket.len() > 0
            &&& !bucket.contains('/')
            &&& exists|n: nat| s == "s3://"@ + bucket + #[trigger] slashes(n)
        },
{
    reveal_strlit("s3://");
    let head = "s3://"@;
    if bucket_of(s) == Ok::<Seq<char>, AnyErrorView>(bucket) {
        let rest = s.skip(5);
        lemma_split_root(rest, Seq::empty());
        let n = (rest.len() - bucket.len()) as nat;
        assert(rest == Seq::<char>::empty() + rest);
        assert(rest == bucket + slashes(n));
        assert(s == head + rest);
        assert(s == head + bucket + slashes(n));
    }
    if bucket.len() > 0 && !bucket.contains('/') && exists|n: nat|
        s == "s3://"@ + bucket + #[trigger] slashes(n) {
        let n = choose|n: nat| s == "s3://"@ + bucket + #[trigger] slashes(n);
        assert(s.skip(5) == bucket + slashes(n));
        assert(head.is_prefix_of(s));
        lemma_split_of_root(bucket, n, Seq::empty());
        assert(Seq::<char>::empty() + bucket == bucket);
    }
}

/// Where only the first piece is not empty, the text is that piece and slashes.
proof fn lemma_split_root(s: Seq<char>, cur: Seq<char>)
    requires
        empty_behind_first(split_from(s, '/', cur)),
        !cur.contains('/'),
    ensures
        ({
            let first = split_from(s, '/', cur)[0];
            &&& first.len() <= cur.len() + s.len()
            &&& !first.contains('/')
            &&& cur + s == first + slashes((cur.len() + s.len() - first.len()) as nat)
        }),
    decreases s.len(),
{
    let parts = split_from(s, '/', cur);
    if s.len() == 0 {
        assert(cur + s == cur + slashes(0));
    } else if s[0] == '/' {
        let tail = split_from(s.drop_first(), '/', Seq::empty());
        lemma_split_not_empty(s.drop_first(), '/', Seq::empty());
        assert(parts == seq![cur] + tail);
        assert forall|i: int| 0 <= i < tail.len() implies (#[trigger] tail[i]).len() == 0 by {
            assert(parts[i + 1] == tail[i]);
        }
        lemma_split_root(s.drop_first(), Seq::empty());
        assert(tail[0].len() == 0);
        let k = (s.len() - 1) as nat;
        assert(Seq::<char>::empty() + s.drop_first() == tail[0] + slashes(k));
        assert(s.drop_first() == slashes(k));
        assert forall|i: int| 0 <= i < s.len() implies s[i] == '/' by {
            if i > 0 {
                assert(s[i] == s.drop_first()[i - 1]);
            }
        }
        assert(s == slashes(s.len()));
    } else {
        assert forall|i: int| 0 <= i < cur.push(s[0]).len() implies cur.push(s[0])[i] != '/' by {
            if i < cur.len() {
                assert(cur.contains(cur[i]));
            }
        }
        lemma_split_root(s.drop_first(), cur.push(s[0]));
        assert(cur + s == cur.push(s[0]) + s.drop_first());
    }
}

/// The pieces of a name and slashes: the name, and nothing else.
proof fn lemma_split_of_root(name: Seq<char>, n: nat, cur: Seq<char>)
    requires
        !name.contains('/'),
    ensures
        split_from(name + slashes(n), '/', cur).len() > 0,
        split_from(name + slashes(n), '/', cur)[0] == cur + name,
        empty_behind_first(split_from(name + slashes(n), '/', cur)),
    decreases name.len() + n,
{
    let s = name + slashes(n);
    if name.len() > 0 {
        assert(s[0] == name[0]);
        assert(name.contains(name[0]));
        assert(s.drop_first() == name.drop_first() + slashes(n));
        assert forall|i: int| 0 <= i < name.drop_first().len() implies name.drop_first()[i]
            != '/' by {
            assert(name.contains(name[i + 1]));
        }
        lemma_split_of_root(name.drop_first(), n, cur.push(name[0]));
        assert(cur.push(name[0]) + name.drop_first() == cur + name);
    } else if n > 0 {
        assert(s[0] == '/');
        assert(s.drop_first() == name + slashes((n - 1) as nat));
        lemma_split_of_root(name, (n - 1) as nat, Seq::empty());
        let tail = split_from(s.drop_first(), '/', Seq::empty());
        assert(cur + name == cur);
        assert(Seq::<char>::empty() + name == Seq::<char>::empty());
        assert forall|i: int| 1 <= i < (seq![cur] + tail).len() implies (#[trigger] (seq![cur]
            + tail)[i]).len() == 0 by {
            if i > 1 {
                assert(tail[i - 1].len() == 0);
            }
        }
    } else {
        assert(cur + name == cur);
    }
}

/// A run that was accepted has an image, a profile and a storage class, polls no more often than
/// every five seconds and gives up after no less than a minute; and it is accepted again as it
/// is, whatever the environment says then.
pub proof fn law_accepted_run_is_complete(c: ConfigView, env_profile: Seq<char>, later: Seq<char>)
    requires
        validated(c, env_profile).1 is Ok,
    ensures
        ({
            let done = validated(c, env_profile).0;
            &&& valid_ami_id(done.ami_id)
            &&& done.profile.len() > 0
            &&& done.storage_class.len() > 0
            &&& done.poll_seconds >= 5
            &&& done.timeout_minutes >= 1
            &&& validated(done, later) == (done, Ok::<(), AnyErrorView>(()))
        }),
{
    reveal_strlit("default");
    reveal_strlit("STANDARD_IA");
}

/// Arguments are read one after the other: where the first ones ask for a run, those behind them
/// are read on top of it.
pub proof fn law_arguments_add_up(first: Seq<Seq<char>>, more: Seq<Seq<char>>, c: ConfigView)
    requires
        parsed_from(first, c) matches Ok(Some(_)),
    ensures
        parsed_from(first + more, c) == parsed_from(more, parsed_from(first, c)->Ok_0->0),
    decreases first.len(),
{
    let all = first + more;
    if first.len() == 0 {
        assert(all == more);
    } else {
        assert(all[0] == first[0]);
        assert(all.skip(1) == first.skip(1) + more);
        if with_switch(c, first[0]) is Some {
            law_arguments_add_up(first.skip(1), more, with_switch(c, first[0])->0);
        } else {
            assert(first.len() > 1);
            assert(all.skip(1)[0] == first.skip(1)[0]);
            assert(all.skip(2) == first.skip(2) + more);
            let next = with_value(c, first[0], first[1])->Ok_0;
            law_arguments_add_up(first.skip(2), more, next);
        }
    }
}

/// The names of the arguments differ.
#[verifier::spinoff_prover]
proof fn lemma_names_differ()
    ensures
        "--help"@ != "-h"@,
        "--help"@ != "--create-bucket"@,
        "--help"@ != "--cleanup"@,
        "--help"@ != "--yes"@,
        "--help"@ != "-y"@,
        "--help"@ != "--dry-run"@,
        "--help"@ != "--verbose"@,
        "--help"@ != "-v"@,
        "--help"@ != "--wait"@,
        "--help"@ != "--no-wait"@,
        "--help"@ != "--ami-id"@,
        "--help"@ != "--region"@,
        "--help"@ != "--profile"@,
        "--help"@ != "--s3-uri"@,
        "--help"@ != "--storage-class"@,
        "--help"@ != "--poll-seconds"@,
        "--help"@ != "--timeout-minutes"@,
        "-h"@ != "--create-bucket"@,
        "-h"@ != "--cleanup"@,
        "-h"@ != "--yes"@,
        "-h"@ != "-y"@,
        "-h"@ != "--dry-run"@,
        "-h"@ != "--verbose"@,
        "-h"@ != "-v"@,
        "-h"@ != "--wait"@,
        "-h"@ != "--no-wait"@,
        "-h"@ != "--ami-id"@,
        "-h"@ != "--region"@,
        "-h"@ != "--profile"@,
        "-h"@ != "--s3-uri"@,
        "-h"@ != "--storage-class"@,
        "-h"@ != "--poll-seconds"@,
        "-h"@ != "--timeout-minutes"@,
        "--create-bucket"@ != "--cleanup"@,
        "--create-bucket"@ != "--yes"@,
        "--create-bucket"@ != "-y"@,
        "--create-bucket"@ != "--dry-run"@,
        "--create-bucket"@ != "--verbose"@,
        "--create-bucket"@ != "-v"@,
        "--create-bucket"@ != "--wait"@,
        "--create-bucket"@ != "--no-wait"@,
        "--create-bucket"@ != "--ami-id"@,
        "--create-bucket"@ != "--region"@,
        "--create-bucket"@ != "--profile"@,
        "--create-bucket"@ != "--s3-uri"@,
        "--create-bucket"@ != "--storage-class"@,
        "--create-bucket"@ != "--poll-seconds"@,
        "--create-bucket"@ != "--timeout-minutes"@,
        "--cleanup"@ != "--yes"@,
        "--cleanup"@ != "-y"@,
        "--cleanup"@ != "--dry-run"@,
        "--cleanup"@ != "--verbose"@,
        "--cleanup"@ != "-v"@,
        "--cleanup"@ != "--wait"@,
        "--cleanup"@ != "--no-wait"@,
        "--cleanup"@ != "--ami-id"@,
        "--cleanup"@ != "--region"@,
        "--cleanup"@ != "--profile"@,
        "--cleanup"@ != "--s3-uri"@,
        "--cleanup"@ != "--storage-class"@,
        "--cleanup"@ != "--poll-seconds"@,
        "--cleanup"@ != "--timeout-minutes"@,
        "--yes"@ != "-y"@,
        "--yes"@ != "--dry-run"@,
        "--yes"@ != "--verbose"@,
        "--yes"@ != "-v"@,
        "--yes"@ != "--wait"@,
        "--yes"@ != "--no-wait"@,
        "--yes"@ != "--ami-id"@,
        "--yes"@ != "--region"@,
        "--yes"@ != "--profile"@,
        "--yes"@ != "--s3-uri"@,
        "--yes"@ != "--storage-class"@,
        "--yes"@ != "--poll-seconds"@,
        "--yes"@ != "--timeout-minutes"@,
        "-y"@ != "--dry-run"@,
        "-y"@ != "--verbose"@,
        "-y"@ != "-v"@,
        "-y"@ != "--wait"@,
        "-y"@ != "--no-wait"@,
        "-y"@ != "--ami-id"@,
        "-y"@ != "--region"@,
        "-y"@ != "--profile"@,
        "-y"@ != "--s3-uri"@,
        "-y"@ != "--storage-class"@,
        "-y"@ != "--poll-seconds"@,
        "-y"@ != "--timeout-minutes"@,
        "--dry-run"@ != "--verbose"@,
        "--dry-run"@ != "-v"@,
        "--dry-run"@ != "--wait"@,
        "--dry-run"@ != "--no-wait"@,
        "--dry-run"@ != "--ami-id"@,
        "--dry-run"@ != "--region"@,
        "--dry-run"@ != "--profile"@,
        "--dry-run"@ != "--s3-uri"@,
        "--dry-run"@ != "--storage-class"@,
        "--dry-run"@ != "--poll-seconds"@,
        "--dry-run"@ != "--timeout-minutes"@,
        "--verbose"@ != "-v"@,
        "--verbose"@ != "--wait"@,
        "--verbose"@ != "--no-wait"@,
        "--verbose"@ != "--ami-id"@,
        "--verbose"@ != "--region"@,
        "--verbose"@ != "--profile"@,
        "--verbose"@ != "--s3-uri"@,
        "--verbose"@ != "--storage-class"@,
        "--verbose"@ != "--poll-seconds"@,
        "--verbose"@ != "--timeout-minutes"@,
        "-v"@ != "--wait"@,
        "-v"@ != "--no-wait"@,
        "-v"@ != "--ami-id"@,
        "-v"@ != "--region"@,
        "-v"@ != "--profile"@,
        "-v"@ != "--s3-uri"@,
        "-v"@ != "--storage-class"@,
        "-v"@ != "--poll-seconds"@,
        "-v"@ != "--timeout-minutes"@,
        "--wait"@ != "--no-wait"@,
        "--wait"@ != "--ami-id"@,
        "--wait"@ != "--region"@,
        "--wait"@ != "--profile"@,
        "--wait"@ != "--s3-uri"@,
        "--wait"@ != "--storage-class"@,
        "--wait"@ != "--poll-seconds"@,
        "--wait"@ != "--timeout-minutes"@,
        "--no-wait"@ != "--ami-id"@,
        "--no-wait"@ != "--region"@,
        "--no-wait"@ != "--profile"@,
        "--no-wait"@ != "--s3-uri"@,
        "--no-wait"@ != "--storage-class"@,
        "--no-wait"@ != "--poll-seconds"@,
        "--no-wait"@ != "--timeout-minutes"@,
        "--ami-id"@ != "--region"@,
        "--ami-id"@ != "--profile"@,
        "--ami-id"@ != "--s3-uri"@,
        "--ami-id"@ != "--storage-class"@,
        "--ami-id"@ != "--poll-seconds"@,
        "--ami-id"@ != "--timeout-minutes"@,
        "--region"@ != "--profile"@,
        "--region"@ != "--s3-uri"@,
        "--region"@ != "--storage-class"@,
        "--region"@ != "--poll-seconds"@,
        "--region"@ != "--timeout-minutes"@,
        "--profile"@ != "--s3-uri"@,
        "--profile"@ != "--storage-class"@,
        "--profile"@ != "--poll-seconds"@,
        "--profile"@ != "--timeout-minutes"@,
        "--s3-uri"@ != "--storage-class"@,
        "--s3-uri"@ != "--poll-seconds"@,
        "--s3-uri"@ != "--timeout-minutes"@,
        "--storage-class"@ != "--poll-seconds"@,
        "--storage-class"@ != "--timeout-minutes"@,
        "--poll-seconds"@ != "--timeout-minutes"@,
{
    reveal_strlit("--help");
    reveal_strlit("-h");
    reveal_strlit("--create-bucket");
    reveal_strlit("--cleanup");
    reveal_strlit("--yes");
    reveal_strlit("-y");
    reveal_strlit("--dry-run");
    reveal_strlit("--verbose");
    reveal_strlit("-v");
    reveal_strlit("--wait");
    reveal_strlit("--no-wait");
    reveal_strlit("--ami-id");
    reveal_strlit("--region");
    reveal_strlit("--profile");
    reveal_strlit("--s3-uri");
    reveal_strlit("--storage-class");
    reveal_strlit("--poll-seconds");
    reveal_strlit("--timeout-minutes");
    assert("--timeout-minutes"@.len() == 17);
    assert("--poll-seconds"@.len() == 14);
    assert("--storage-class"@.len() == 15);
    assert("--s3-uri"@.len() == 8);
    assert("--profile"@.len() == 9);
    assert("--region"@.len() == 8);
    assert("--ami-id"@.len() == 8);
    assert("--no-wait"@.len() == 9);
    assert("--wait"@.len() == 6);
    assert("-v"@.len() == 2);
    assert("--verbose"@.len() == 9);
    assert("--dry-run"@.len() == 9);
    assert("-y"@.len() == 2);
    assert("--yes"@.len() == 5);
    assert("--cleanup"@.len() == 9);
    assert("--create-bucket"@.len() == 15);
    assert("-h"@.len() == 2);
    assert("--help"@.len() == 6);
    assert("--help"@[2] != "--wait"@[2]);
    assert("-h"@[1] != "-y"@[1]);
    assert("-h"@[1] != "-v"@[1]);
    assert("--create-bucket"@[2] != "--storage-class"@[2]);
    assert("--cleanup"@[2] != "--dry-run"@[2]);
    assert("--cleanup"@[2] != "--verbose"@[2]);
    assert("--cleanup"@[2] != "--no-wait"@[2]);
    assert("--cleanup"@[2] != "--profile"@[2]);
    assert("-y"@[1] != "-v"@[1]);
    assert("--dry-run"@[2] != "--verbose"@[2]);
    assert("--dry-run"@[2] != "--no-wait"@[2]);
    assert("--dry-run"@[2] != "--profile"@[2]);
    assert("--verbose"@[2] != "--no-wait"@[2]);
    assert("--verbose"@[2] != "--profile"@[2]);
    assert("--no-wait"@[2] != "--profile"@[2]);
    assert("--ami-id"@[2] != "--region"@[2]);
    assert("--ami-id"@[2] != "--s3-uri"@[2]);
    assert("--region"@[2] != "--s3-uri"@[2]);
}

/// A single switch.
proof fn lemma_one_switch(c: ConfigView, arg: Seq<char>)
    requires
        !asks_help(arg),
        with_switch(c, arg) is Some,
    ensures
        parsed_from(seq![arg], c) == Ok::<Option<ConfigView>, AnyErrorView>(with_switch(c, arg)),
{
    let next = with_switch(c, arg)->0;
    assert(seq![arg].skip(1).len() == 0);
    assert(parsed_from(seq![arg].skip(1), next) == Ok::<Option<ConfigView>, AnyErrorView>(
        Some(next),
    ));
}

/// A single argument with its value.
proof fn lemma_one_value(c: ConfigView, arg: Seq<char>, value: Seq<char>)
    requires
        !asks_help(arg),
        with_switch(c, arg) is None,
        takes_value(arg),
        !"--"@.is_prefix_of(value),
        with_value(c, arg, value) is Ok,
    ensures
        parsed_from(seq![arg, value], c) == Ok::<Option<ConfigView>, AnyErrorView>(
            Some(with_value(c, arg, value)->Ok_0),
        ),
{
    let next = with_value(c, arg, value)->Ok_0;
    let all = seq![arg, value];
    assert(all.skip(1) == seq![value]);
    assert(all.skip(2).len() == 0);
    assert(parsed_from(all.skip(2), next) == Ok::<Option<ConfigView>, AnyErrorView>(Some(next)));
}

/// Each switch sets what it is named after, and nothing else.
pub proof fn law_switches_are_thrown(c: ConfigView)
    ensures
        parsed_from(seq!["--create-bucket"@], c) == Ok::<Option<ConfigView>, AnyErrorView>(
            Some(ConfigView { create_bucket: true, ..c }),
        ),
        parsed_from(seq!["--cleanup"@], c) == Ok::<Option<ConfigView>, AnyErrorView>(
            Some(ConfigView { cleanup: true, ..c }),
        ),
        parsed_from(seq!["--yes"@], c) == Ok::<Option<ConfigView>, AnyErrorView>(
            Some(ConfigView { yes: true, ..c }),
        ),
        parsed_from(seq!["-y"@], c) == Ok::<Option<ConfigView>, AnyErrorView>(
            Some(ConfigView { yes: true, ..c }),
        ),
        parsed_from(seq!["--dry-run"@], c) == Ok::<Option<ConfigView>, AnyErrorView>(
            Some(ConfigView { dry_run: true, ..c }),
        ),
        parsed_from(seq!["--verbose"@], c) == Ok::<Option<ConfigView>, AnyErrorView>(
            Some(ConfigView { verbose: true, ..c }),
        ),
        parsed_from(seq!["-v"@], c) == Ok::<Option<ConfigView>, AnyErrorView>(
            Some(ConfigView { verbose: true, ..c }),
        ),
        parsed_from(seq!["--wait"@], c) == Ok::<Option<ConfigView>, AnyErrorView>(
            Some(ConfigView { wait: true, ..c }),
        ),
        parsed_from(seq!["--no-wait"@], c) == Ok::<Option<ConfigView>, AnyErrorView>(
            Some(ConfigView { wait: false, ..c }),
        ),
{
    lemma_names_differ();
    lemma_one_switch(c, "--create-bucket"@);
    lemma_one_switch(c, "--cleanup"@);
    lemma_one_switch(c, "--yes"@);
    lemma_one_switch(c, "-y"@);
    lemma_one_switch(c, "--dry-run"@);
    lemma_one_switch(c, "--verbose"@);
    lemma_one_switch(c, "-v"@);
    lemma_one_switch(c, "--wait"@);
    lemma_one_switch(c, "--no-wait"@);
}

/// An argument with a text for a value keeps the text as it is, and changes nothing else.
pub proof fn law_values_are_kept(c: ConfigView, value: Seq<char>)
    requires
        !"--"@.is_prefix_of(value),
    ensures
        parsed_from(seq!["--ami-id"@, value], c) == Ok::<Option<ConfigView>, AnyErrorView>(
            Some(ConfigView { ami_id: value, ..c }),
        ),
        parsed_from(seq!["--region"@, value], c) == Ok::<Option<ConfigView>, AnyErrorView>(
            Some(ConfigView { region: value, ..c }),
        ),
        parsed_from(seq!["--profile"@, value], c) == Ok::<Option<ConfigView>, AnyErrorView>(
            Some(ConfigView { profile: value, ..c }),
        ),
        parsed_from(seq!["--s3-uri"@, value], c) == Ok::<Option<ConfigView>, AnyErrorView>(
            Some(ConfigView { s3_uri: value, ..c }),
        ),
        parsed_from(seq!["--storage-class"@, value], c) == Ok::<Option<ConfigView>, AnyErrorView>(
            Some(ConfigView { storage_class: value, ..c }),
        ),
{
    lemma_names_differ();
    lemma_one_value(c, "--ami-id"@, value);
    lemma_one_value(c, "--region"@, value);
    lemma_one_value(c, "--profile"@, value);
    lemma_one_value(c, "--s3-uri"@, value);
    lemma_one_value(c, "--storage-class"@, value);
}

/// An argument with a number for a value takes every number that is written in decimal digits and
/// fits, and changes nothing else.
pub proof fn law_numbers_are_kept(c: ConfigView, n: u64)
    ensures
        parsed_from(seq!["--poll-seconds"@, decimal(n as nat)], c) == Ok::<
            Option<ConfigView>,
            AnyErrorView,
        >(
            Some(ConfigView { poll_seconds: n as nat, ..c }),
        ),
        parsed_from(seq!["--timeout-minutes"@, decimal(n as nat)], c) == Ok::<
            Option<ConfigView>,
            AnyErrorView,
        >(
            Some(ConfigView { timeout_minutes: n as nat, ..c }),
        ),
{
    let value = decimal(n as nat);
    lemma_names_differ();
    law_decimal_is_read_back(n);
    lemma_no_hyphen(n as nat);
    lemma_one_value(c, "--poll-seconds"@, value);
    lemma_one_value(c, "--timeout-minutes"@, value);
}

/// The decimal text of a number does not begin with hyphens.
proof fn lemma_no_hyphen(n: nat)
    ensures
        decimal(n).len() > 0,
        decimal(n)[0] != '-',
        !"--"@.is_prefix_of(decimal(n)),
    decreases n,
{
    reveal_strlit("--");
    if n >= 10 {
        lemma_no_hyphen(n / 10);
    }
    if "--"@.is_prefix_of(decimal(n)) {
        assert("--"@[0] == decimal(n).subrange(0, 2)[0]);
    }
}

/// A value that is missing, or that begins with two hyphens, is asked for by the name of the
/// argument; a number that cannot be read is refused, and told why.
pub proof fn law_bad_values_are_refused(
    c: ConfigView,
    name: Seq<char>,
    value: Seq<char>,
    rest: Seq<Seq<char>>,
)
    requires
        ({
            ||| name == "--ami-id"@
            ||| name == "--region"@
            ||| name == "--profile"@
            ||| name == "--s3-uri"@
            ||| name == "--storage-class"@
            ||| name == "--poll-seconds"@
            ||| name == "--timeout-minutes"@
        }),
    ensures
        parsed_from(seq![name], c) == Err::<Option<ConfigView>, AnyErrorView>(
            AnyErrorView::Message(name + " requires a value"@),
        ),
        "--"@.is_prefix_of(value) ==> parsed_from(seq![name, value] + rest, c) == Err::<
            Option<ConfigView>,
            AnyErrorView,
        >(AnyErrorView::Message(name + " requires a value"@)),
        (name == "--poll-seconds"@ || name == "--timeout-minutes"@) && !"--"@.is_prefix_of(value)
            && parsed_u64(value) is Err ==> parsed_from(seq![name, value] + rest, c) == Err::<
            Option<ConfigView>,
            AnyErrorView,
        >(
            AnyErrorView::Message(
                match parsed_u64(value)->Err_0 {
                    NumberError::Empty => "cannot parse integer from empty string"@,
                    NumberError::InvalidDigit => "invalid digit found in string"@,
                    NumberError::TooLarge => "number too large to fit in target type"@,
                },
            ),
        ),
{
    lemma_names_differ();
    let all = seq![name, value] + rest;
    assert(all[0] == name);
    assert(all.skip(1)[0] == value);
    assert(seq![name].skip(1).len() == 0);
}

/// An argument that is none of those the program knows is refused by its name, and the help is
/// given wherever it is asked for before anything is refused.
pub proof fn law_unknown_arguments_are_refused(c: ConfigView, arg: Seq<char>, rest: Seq<Seq<char>>)
    ensures
        arg != "--help"@ && arg != "-h"@ && arg != "--create-bucket"@ && arg != "--cleanup"@
            && arg != "--yes"@ && arg != "-y"@ && arg != "--dry-run"@ && arg != "--verbose"@
            && arg != "-v"@ && arg != "--wait"@ && arg != "--no-wait"@ && arg != "--ami-id"@
            && arg != "--region"@ && arg != "--profile"@ && arg != "--s3-uri"@
            && arg != "--storage-class"@ && arg != "--poll-seconds"@
            && arg != "--timeout-minutes"@
            ==> parsed_from(seq![arg] + rest, c) == Err::<Option<ConfigView>, AnyErrorView>(
            AnyErrorView::Message("unknown argument: "@ + arg),
        ),
        arg == "--help"@ || arg == "-h"@ ==> parsed_from(seq![arg] + rest, c) == Ok::<
            Option<ConfigView>,
            AnyErrorView,
        >(None),
        parsed_from(Seq::empty(), c) == Ok::<Option<ConfigView>, AnyErrorView>(Some(c)),
{
    assert((seq![arg] + rest)[0] == arg);
}

/// The identifier of an image is `ami-` and 8 to 17 hexadecimal digits, and nothing else is one.
pub proof fn law_ami_ids(s: Seq<char>, digits: Seq<char>)
    ensures
        valid_ami_id("ami-"@ + digits) <==> 8 <= digits.len() <= 17 && forall|i: int|
            0 <= i < digits.len() ==> "0123456789abcdefABCDEF"@.contains(#[trigger] digits[i]),
        valid_ami_id(s) ==> s == "ami-"@ + s.skip(4),
{
    reveal_strlit("ami-");
    reveal_strlit("0123456789abcdefABCDEF");
    let all = "0123456789abcdefABCDEF"@;
    let id = "ami-"@ + digits;
    assert(id.skip(4) == digits);
    assert("ami-"@ == id.subrange(0, 4));
    assert forall|c: char| #[trigger] all.contains(c) <==> is_hex_digit(c) by {
        lemma_hex_digits(c);
    }
    assert forall|i: int| 0 <= i < digits.len() implies is_hex_digit(#[trigger] digits[i])
        == all.contains(digits[i]) by {}
    if valid_ami_id(id) {
        assert forall|i: int| 0 <= i < digits.len() implies all.contains(#[trigger] digits[i]) by {
            assert(is_hex_digit(id.skip(4)[i]));
        }
    }
    if valid_ami_id(s) {
        assert("ami-"@ == s.subrange(0, 4));
    }
}

/// The hexadecimal digits are these.
proof fn lemma_hex_digits(c: char)
    ensures
        "0123456789abcdefABCDEF"@.contains(c) <==> is_hex_digit(c),
{
    reveal_strlit("0123456789abcdefABCDEF");
    let all = "0123456789abcdefABCDEF"@;
    if is_hex_digit(c) {
        let n = c as u32;
        let i: int = if n <= 57 {
            n - 48
        } else if n >= 97 {
            n - 97 + 10
        } else {
            n - 65 + 16
        };
        assert(0 <= i < 22);
        assert(all[i] as u32 == n);
        assert(all[i] == c);
    }
    if all.contains(c) {
        let i = choose|i: int| 0 <= i < all.len() && all[i] == c;
        assert(is_hex_digit(all[i]));
    }
}

/// A URI that does not name a bucket is refused, and told by what is wrong with it.
pub proof fn law_other_uris_are_refused(s: Seq<char>)
    ensures
        bucket_of(s) is Err ==> bucket_of(s) == Err::<Seq<char>, AnyErrorView>(
            AnyErrorView::Message(
                if "s3://"@.is_prefix_of(s) {
                    "--s3-uri must point to a bucket root only, got "@ + s
                } else {
                    "invalid --s3-uri: expected s3://bucket, got "@ + s
                },
            ),
        ),
{
}

/// What a run is completed with: a profile of the environment, or the default one, only where none
/// was given; a storage class only where none was given; and times only where they are too short.
/// The bucket is that of the URI, where it names one. Nothing else changes, also where the run is
/// refused for its URI.
pub proof fn law_runs_are_completed(c: ConfigView, env_profile: Seq<char>)
    requires
        valid_ami_id(c.ami_id),
    ensures
        ({
            let d = validated(c, env_profile).0;
            &&& d.ami_id == c.ami_id && d.region == c.region && d.s3_uri == c.s3_uri
            &&& d.create_bucket == c.create_bucket && d.cleanup == c.cleanup && d.yes == c.yes
            &&& d.dry_run == c.dry_run && d.verbose == c.verbose && d.wait == c.wait
            &&& c.profile.len() > 0 ==> d.profile == c.profile
            &&& c.profile.len() == 0 && env_profile.len() > 0 ==> d.profile == env_profile
            &&& c.profile.len() == 0 && env_profile.len() == 0 ==> d.profile == "default"@
            &&& c.storage_class.len() > 0 ==> d.storage_class == c.storage_class
            &&& c.storage_class.len() == 0 ==> d.storage_class == "STANDARD_IA"@
            &&& c.poll_seconds >= 5 ==> d.poll_seconds == c.poll_seconds
            &&& c.poll_seconds < 5 ==> d.poll_seconds == 5
            &&& c.timeout_minutes >= 1 ==> d.timeout_minutes == c.timeout_minutes
            &&& c.timeout_minutes < 1 ==> d.timeout_minutes == 1
            &&& c.s3_uri.len() == 0 || bucket_of(c.s3_uri) is Err ==> d.bucket == c.bucket
            &&& c.s3_uri.len() > 0 && bucket_of(c.s3_uri) is Ok ==> exists|n: nat|
                c.s3_uri == "s3://"@ + d.bucket + #[trigger] slashes(n)
        }),
{
    reveal_strlit("default");
    reveal_strlit("ami-");
    if c.s3_uri.len() > 0 && bucket_of(c.s3_uri) is Ok {
        law_bucket_stands_at_the_root(c.s3_uri, validated(c, env_profile).0.bucket);
    }
}

/// A run is accepted exactly where its image has a valid identifier and its URI, where there is
/// one, names a bucket; one that is refused for its image is left as it is.
pub proof fn law_runs_are_refused(c: ConfigView, env_profile: Seq<char>)
    ensures
        validated(c, env_profile).1 is Ok <==> valid_ami_id(c.ami_id) && (c.s3_uri.len() == 0
            || bucket_of(c.s3_uri) is Ok),
        c.ami_id.len() == 0 ==> validated(c, env_profile) == (
            c,
            Err::<(), AnyErrorView>(AnyErrorView::Message("--ami-id is required"@)),
        ),
        c.ami_id.len() > 0 && !valid_ami_id(c.ami_id) ==> validated(c, env_profile) == (
            c,
            Err::<(), AnyErrorView>(AnyErrorView::Message("invalid --ami-id: "@ + c.ami_id)),
        ),
        valid_ami_id(c.ami_id) && c.s3_uri.len() > 0 && bucket_of(c.s3_uri) is Err ==> validated(
            c,
            env_profile,
        ).1 == Err::<(), AnyErrorView>(bucket_of(c.s3_uri)->Err_0),
{
    if c.ami_id.len() == 0 {
        reveal_strlit("ami-");
    }
}

/// A run for which nothing is asked waits for the store task, asks after it every 15 seconds for
/// no more than 12 hours, and archives to the class `STANDARD_IA`; everything else is left out.
pub proof fn law_nothing_is_asked_for_by_default()
    ensures
        ({
            let c = default_config();
            &&& c.ami_id.len() == 0 && c.region.len() == 0 && c.profile.len() == 0
            &&& c.s3_uri.len() == 0 && c.bucket.len() == 0
            &&& !c.create_bucket && !c.cleanup && !c.yes && !c.dry_run && !c.verbose
            &&& c.wait
            &&& c.poll_seconds == 15
            &&& c.timeout_minutes == 12 * 60
            &&& c.storage_class == "STANDARD_IA"@
        }),
{
}

}
