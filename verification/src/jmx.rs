//! A JVM's management beans as a cluster: a band's limit is one attribute of a
//! bean, read and written through the Jolokia bridge.

use vstd::prelude::*;

use crate::dimension::{FieldOwner, Sample, Target};
use crate::host::command_line_text;
use crate::layout::{LimitLayout, MetricSource, SsaPatch};
use crate::provider::{blank_receipt, AppliedReceipt, ProviderError, ProviderErrorView};
use crate::text::{
    chars_of, code_text, decimal_text, find_text, parse_u64, rfind_char, run_end, same_text,
    text_between, trim, trim_end, CharClass,
};

verus! {

// ─────────────────────── errors ───────────────────────

/// Why a bean could not be read or written.
#[derive(Debug, PartialEq, Eq)]
pub enum JmxError {
    /// The command names no bean and attribute.
    BadCommand(String),
    /// The bridge could not be called.
    Io(String),
    /// The answer holds no number.
    Parse(String),
    /// The call failed.
    Command { argv: String, code: Option<i32>, stderr: String },
    /// The bridge is not switched on.
    NotLinked(String),
}

/// A bean error with its texts as characters.
pub enum JmxErrorView {
    /// The command names no bean and attribute.
    BadCommand(Seq<char>),
    /// The bridge could not be called.
    Io(Seq<char>),
    /// The answer holds no number.
    Parse(Seq<char>),
    /// The call failed.
    Command { argv: Seq<char>, code: Option<i32>, stderr: Seq<char> },
    /// The bridge is not switched on.
    NotLinked(Seq<char>),
}

impl View for JmxError {
    type V = JmxErrorView;

    open spec fn view(&self) -> JmxErrorView {
        match *self {
            JmxError::BadCommand(m) => JmxErrorView::BadCommand(m@),
            JmxError::Io(m) => JmxErrorView::Io(m@),
            JmxError::Parse(m) => JmxErrorView::Parse(m@),
            JmxError::Command { argv, code, stderr } => JmxErrorView::Command {
                argv: argv@,
                code,
                stderr: stderr@,
            },
            JmxError::NotLinked(m) => JmxErrorView::NotLinked(m@),
        }
    }
}

/// A result with its error's texts as characters.
pub open spec fn jmx_result<T>(r: Result<T, JmxError>) -> Result<T, JmxErrorView> {
    match r {
        Ok(v) => Ok(v),
        Err(e) => Err(e@),
    }
}

impl JmxErrorView {
    /// The error in words.
    pub open spec fn words(self) -> Seq<char> {
        match self {
            JmxErrorView::BadCommand(c) => "jmx: malformed MBean command `"@ + c
                + "` (want `ObjectName:attribute`)"@,
            JmxErrorView::Io(m) => "jmx io error: "@ + m,
            JmxErrorView::Parse(m) => "jmx parse error: "@ + m,
            JmxErrorView::Command { argv, code, stderr } => "`"@ + argv + "` exited "@
                + crate::text::code_words(code) + ": "@ + stderr,
            JmxErrorView::NotLinked(m) => "jmx: live Jolokia client not yet linked ("@ + m + ")"@,
        }
    }

    /// What the error means to a provider: an answer that cannot be read is a
    /// missing metric, a bad command or a bridge that is off is permanent, the
    /// rest may mend.
    pub open spec fn to_provider(self) -> ProviderErrorView {
        match self {
            JmxErrorView::Parse(_) => ProviderErrorView::MetricsMissing,
            JmxErrorView::BadCommand(m) => ProviderErrorView::ApiPermanent(m),
            JmxErrorView::NotLinked(m) => ProviderErrorView::ApiPermanent(m),
            JmxErrorView::Io(m) => ProviderErrorView::ApiTransient(m),
            JmxErrorView::Command { .. } => ProviderErrorView::ApiTransient(self.words()),
        }
    }
}

impl Clone for JmxError {
    fn clone(&self) -> (r: Self)
        ensures
            r == *self,
    {
        match self {
            JmxError::BadCommand(m) => JmxError::BadCommand(m.clone()),
            JmxError::Io(m) => JmxError::Io(m.clone()),
            JmxError::Parse(m) => JmxError::Parse(m.clone()),
            JmxError::Command { argv, code, stderr } => JmxError::Command {
                argv: argv.clone(),
                code: *code,
                stderr: stderr.clone(),
            },
            JmxError::NotLinked(m) => JmxError::NotLinked(m.clone()),
        }
    }
}

impl JmxError {
    /// The error in words.
    #[must_use]
    pub fn message(&self) -> (r: String)
        ensures
            r@ == self@.words(),
    {
        match self {
            JmxError::BadCommand(c) => {
                let mut s = "jmx: malformed MBean command `".to_owned();
                s.append(c.as_str());
                s.append("` (want `ObjectName:attribute`)");
                s
            },
            JmxError::Io(m) => {
                let mut s = "jmx io error: ".to_owned();
                s.append(m.as_str());
                s
            },
            JmxError::Parse(m) => {
                let mut s = "jmx parse error: ".to_owned();
                s.append(m.as_str());
                s
            },
            JmxError::Command { argv, code, stderr } => {
                let mut s = "`".to_owned();
                s.append(argv.as_str());
                s.append("` exited ");
                s.append(code_text(*code).as_str());
                s.append(": ");
                s.append(stderr.as_str());
                s
            },
            JmxError::NotLinked(m) => {
                let mut s = "jmx: live Jolokia client not yet linked (".to_owned();
                s.append(m.as_str());
                s.append(")");
                s
            },
        }
    }

    /// What the error means to a provider.
    #[must_use]
    pub fn into_provider(self) -> (r: ProviderError)
        ensures
            r@ == self@.to_provider(),
    {
        match self {
            JmxError::Parse(_) => ProviderError::MetricsMissing,
            JmxError::BadCommand(m) => ProviderError::ApiPermanent(m),
            JmxError::NotLinked(m) => ProviderError::ApiPermanent(m),
            JmxError::Io(m) => ProviderError::ApiTransient(m),
            JmxError::Command { argv, code, stderr } => {
                let e = JmxError::Command { argv, code, stderr };
                ProviderError::ApiTransient(e.message())
            },
        }
    }
}

// ─────────────────────── commands and answers ───────────────────────

/// The bean and the attribute of a command: what stands before its last colon,
/// and behind it. Neither may be empty.
pub open spec fn mbean_of(command: Seq<char>) -> Option<(Seq<char>, Seq<char>)> {
    match crate::text::last_place(command, ':', command.len() as int) {
        Some(i) => if i > 0 && i + 1 < command.len() {
            Some((command.take(i), command.skip(i + 1)))
        } else {
            None
        },
        None => None,
    }
}

/// The bean and the attribute of a command.
pub fn split_mbean_command(command: &str) -> (r: Result<(String, String), JmxError>)
    ensures
        match r {
            Ok((bean, attribute)) => mbean_of(command@) == Some((bean@, attribute@)),
            Err(e) => mbean_of(command@) is None && e@ == JmxErrorView::BadCommand(command@),
        },
{
    let v = chars_of(command);
    match rfind_char(&v, ':', v.len()) {
        Some(i) => {
            if i > 0 && i + 1 < v.len() {
                assert(v@.subrange(0, i as int) =~= command@.take(i as int));
                assert(v@.subrange(i + 1, v.len() as int) =~= command@.skip(i + 1));
                return Ok((text_between(&v, 0, i), text_between(&v, i + 1, v.len())));
            }
        },
        None => {},
    }
    Err(JmxError::BadCommand(command.to_owned()))
}

/// A bean and an attribute without a colon are the parts of the command that
/// joins them.
pub proof fn a_joined_command_splits_again(bean: Seq<char>, attribute: Seq<char>)
    requires
        bean.len() > 0,
        attribute.len() > 0,
        forall|i: int| 0 <= i < attribute.len() ==> #[trigger] attribute[i] != ':',
    ensures
        mbean_of(bean + ":"@ + attribute) == Some((bean, attribute)),
{
    reveal_strlit(":");
    let command = bean + ":"@ + attribute;
    lemma_last_colon(command, bean.len() as int, command.len() as int);
    assert(command.take(bean.len() as int) =~= bean);
    assert(command.skip(bean.len() as int + 1) =~= attribute);
}

proof fn lemma_last_colon(s: Seq<char>, at: int, to: int)
    requires
        0 <= at < to <= s.len(),
        s[at] == ':',
        forall|i: int| at < i < to ==> #[trigger] s[i] != ':',
    ensures
        crate::text::last_place(s, ':', to) == Some(at),
    decreases to,
{
    if at < to - 1 {
        assert(s[to - 1] != ':');
        lemma_last_colon(s, at, to - 1);
    }
}

/// What an answer's first `"value"` is: the digits behind it, past a colon and
/// blanks.
pub open spec fn jolokia_value_of(body: Seq<char>) -> Result<u64, JmxErrorView> {
    let key = "\"value\""@;
    match crate::text::place_from(body, key, 0) {
        None => Err(JmxErrorView::Parse("no \"value\" field in Jolokia body"@)),
        Some(i) => {
            let rest = crate::text::without_leading(
                body.skip(i + key.len()),
                CharClass::ColonOrBlank,
            );
            let digits = rest.take(crate::text::leading(rest, CharClass::Digit) as int);
            if digits.len() == 0 {
                Err(JmxErrorView::Parse("Jolokia \"value\" is not an integer"@))
            } else {
                match crate::text::parsed_u64(digits) {
                    Ok(n) => Ok(n),
                    Err(e) => Err(JmxErrorView::Parse(e.words())),
                }
            }
        },
    }
}

/// The number in an answer of the bridge.
pub fn parse_jolokia_value(body: &str) -> (r: Result<u64, JmxError>)
    ensures
        jmx_result(r) == jolokia_value_of(body@),
{
    let v = chars_of(body);
    let key = chars_of("\"value\"");
    match find_text(&v, &key) {
        None => Err(JmxError::Parse("no \"value\" field in Jolokia body".to_owned())),
        Some(i) => {
            let from: usize = i + key.len();
            let a: usize = run_end(&v, from, v.len(), CharClass::ColonOrBlank);
            let b: usize = run_end(&v, a, v.len(), CharClass::Digit);
            let ghost after = body@.skip(from as int);
            assert(v@.subrange(from as int, v.len() as int) =~= after);
            let ghost rest = crate::text::without_leading(after, CharClass::ColonOrBlank);
            assert(v@.subrange(a as int, v.len() as int) =~= rest);
            assert(v@.subrange(a as int, b as int) =~= rest.take(b - a));
            if a == b {
                return Err(JmxError::Parse("Jolokia \"value\" is not an integer".to_owned()));
            }
            match parse_u64(text_between(&v, a, b).as_str()) {
                Ok(n) => Ok(n),
                Err(e) => Err(JmxError::Parse(e.message())),
            }
        },
    }
}

/// Everything that is read of beans and written to them.
pub trait JmxEnv: Sized + Send + Sync {
    /// The endpoint may answer a read of the attribute so.
    open spec fn gives(
        &self,
        endpoint: Seq<char>,
        attribute: Seq<char>,
        r: Result<u64, JmxError>,
    ) -> bool {
        true
    }

    /// The endpoint may answer a write of the attribute so, and the beans become
    /// `after`.
    open spec fn takes(
        &self,
        endpoint: Seq<char>,
        attribute: Seq<char>,
        value: u64,
        r: Result<(), JmxError>,
        after: &Self,
    ) -> bool {
        true
    }

    /// An attribute, by its bean and name.
    fn read_mbean(&self, endpoint: &str, attribute: &str) -> (r: Result<u64, JmxError>)
        ensures
            self.gives(endpoint@, attribute@, r),
    ;

    /// Writes an attribute, by its bean and name.
    fn write_mbean(&mut self, endpoint: &str, attribute: &str, value: u64) -> (r: Result<
        (),
        JmxError,
    >)
        ensures
            old(self).takes(endpoint@, attribute@, value, r, final(self)),
    ;
}

/// How the bridge is called. It is off until it is switched on.
#[derive(Debug, PartialEq, Eq)]
pub struct JolokiaCurlEnv {
    curl_bin: String,
    linked: bool,
}

impl Clone for JolokiaCurlEnv {
    fn clone(&self) -> (r: Self)
        ensures
            r == *self,
    {
        JolokiaCurlEnv { curl_bin: self.curl_bin.clone(), linked: self.linked }
    }
}

impl Default for JolokiaCurlEnv {
    fn default() -> (r: Self)
        ensures
            r.program() == "curl"@,
            !r.on(),
    {
        JolokiaCurlEnv { curl_bin: "curl".to_owned(), linked: false }
    }
}

/// The address of a request: the endpoint without slashes at its end, the
/// method, the bean, the attribute, and for a write the value.
pub open spec fn request_url(
    method: Seq<char>,
    endpoint: Seq<char>,
    bean: Seq<char>,
    attribute: Seq<char>,
    value: Option<u64>,
) -> Seq<char> {
    let url = crate::text::without_trailing(endpoint, CharClass::Slash) + "/"@ + method + "/"@
        + bean + "/"@ + attribute;
    match value {
        Some(v) => url + "/"@ + crate::text::decimal(v as nat),
        None => url,
    }
}

/// What a call of the bridge comes to: an error where it is off or the command
/// names no attribute, else the arguments.
pub open spec fn request_of(
    on: bool,
    method: Seq<char>,
    what: Seq<char>,
    endpoint: Seq<char>,
    command: Seq<char>,
    value: Option<u64>,
) -> Result<Seq<Seq<char>>, JmxErrorView> {
    if !on {
        Err(JmxErrorView::NotLinked(method + " "@ + what + " @ "@ + endpoint))
    } else {
        match mbean_of(command) {
            None => Err(JmxErrorView::BadCommand(command)),
            Some((bean, attribute)) => Ok(
                seq![
                    "-sf"@,
                    "-m"@,
                    "5"@,
                    request_url(method, endpoint, bean, attribute, value),
                ],
            ),
        }
    }
}

/// The arguments of a call with their texts as characters.
pub open spec fn argv_result(r: Result<Vec<String>, JmxError>) -> Result<
    Seq<Seq<char>>,
    JmxErrorView,
> {
    match r {
        Ok(argv) => Ok(crate::text::texts(argv@)),
        Err(e) => Err(e@),
    }
}

impl JolokiaCurlEnv {
    /// The program that calls the bridge.
    pub closed spec fn program(self) -> Seq<char> {
        self.curl_bin@
    }

    /// The bridge is switched on.
    pub closed spec fn on(self) -> bool {
        self.linked
    }

    /// The bridge as its settings describe it: the program, and `1` or `true`
    /// to switch it on.
    #[must_use]
    pub fn from_settings(curl_bin: Option<String>, linked: Option<String>) -> (r: Self)
        ensures
            r.program() == match curl_bin {
                Some(s) => s@,
                None => "curl"@,
            },
            r.on() == (linked matches Some(s) && (s@ == "1"@ || s@ == "true"@)),
    {
        let on: bool = match &linked {
            Some(s) => same_text(s.as_str(), "1") || same_text(s.as_str(), "true"),
            None => false,
        };
        let bin = match curl_bin {
            Some(s) => s,
            None => "curl".to_owned(),
        };
        JolokiaCurlEnv { curl_bin: bin, linked: on }
    }

    /// The bridge, switched on or off.
    #[must_use]
    pub fn linked(self, linked: bool) -> (r: Self)
        ensures
            r.program() == self.program(),
            r.on() == linked,
    {
        JolokiaCurlEnv { curl_bin: self.curl_bin, linked }
    }

    /// The program that calls the bridge.
    pub fn curl_bin(&self) -> (r: &str)
        ensures
            r@ == self.program(),
    {
        self.curl_bin.as_str()
    }

    /// The arguments of one request.
    #[must_use]
    pub fn curl_argv(
        method: &str,
        endpoint: &str,
        object_name: &str,
        attribute: &str,
        value: Option<u64>,
    ) -> (r: Vec<String>)
        ensures
            crate::text::texts(r@) == seq![
                "-sf"@,
                "-m"@,
                "5"@,
                request_url(method@, endpoint@, object_name@, attribute@, value),
            ],
    {
        let mut url = trim_end(endpoint, CharClass::Slash);
        url.append("/");
        url.append(method);
        url.append("/");
        url.append(object_name);
        url.append("/");
        url.append(attribute);
        match value {
            Some(v) => {
                url.append("/");
                url.append(decimal_text(v).as_str());
            },
            None => {},
        }
        let r = vec!["-sf".to_owned(), "-m".to_owned(), "5".to_owned(), url];
        assert(crate::text::texts(r@) =~= seq![
            "-sf"@,
            "-m"@,
            "5"@,
            request_url(method@, endpoint@, object_name@, attribute@, value),
        ]);
        r
    }

    fn not_linked(method: &str, what: &str, endpoint: &str) -> (r: JmxError)
        ensures
            r@ == JmxErrorView::NotLinked(method@ + " "@ + what@ + " @ "@ + endpoint@),
    {
        let mut s = method.to_owned();
        s.append(" ");
        s.append(what);
        s.append(" @ ");
        s.append(endpoint);
        JmxError::NotLinked(s)
    }

    /// The arguments of the call that reads an attribute.
    pub fn read_request(&self, endpoint: &str, command: &str) -> (r: Result<Vec<String>, JmxError>)
        ensures
            argv_result(r) == request_of(self.on(), "read"@, command@, endpoint@, command@, None),
    {
        if !self.linked {
            return Err(Self::not_linked("read", command, endpoint));
        }
        match split_mbean_command(command) {
            Ok((bean, attribute)) => Ok(
                Self::curl_argv("read", endpoint, bean.as_str(), attribute.as_str(), None),
            ),
            Err(e) => Err(e),
        }
    }

    /// The arguments of the call that writes an attribute.
    pub fn write_request(&self, endpoint: &str, command: &str, value: u64) -> (r: Result<
        Vec<String>,
        JmxError,
    >)
        ensures
            argv_result(r) == request_of(
                self.on(),
                "write"@,
                command@ + "="@ + crate::text::decimal(value as nat),
                endpoint@,
                command@,
                Some(value),
            ),
    {
        if !self.linked {
            let mut what = command.to_owned();
            what.append("=");
            what.append(decimal_text(value).as_str());
            return Err(Self::not_linked("write", what.as_str(), endpoint));
        }
        match split_mbean_command(command) {
            Ok((bean, attribute)) => Ok(
                Self::curl_argv(
                    "write",
                    endpoint,
                    bean.as_str(),
                    attribute.as_str(),
                    Some(value),
                ),
            ),
            Err(e) => Err(e),
        }
    }

    /// What a finished call comes to: its output without white space at either
    /// end, or the failure.
    pub fn finished_call(
        &self,
        argv: &Vec<String>,
        success: bool,
        code: Option<i32>,
        stdout: &str,
        stderr: &str,
    ) -> (r: Result<String, JmxError>)
        ensures
            match r {
                Ok(out) => success && out@ == crate::text::trimmed(stdout@),
                Err(e) => !success && e@ == (JmxErrorView::Command {
                    argv: crate::host::command_line(self.program(), crate::text::texts(argv@)),
                    code,
                    stderr: crate::text::trimmed(stderr@),
                }),
            },
    {
        if !success {
            return Err(
                JmxError::Command {
                    argv: command_line_text(self.curl_bin.as_str(), argv),
                    code,
                    stderr: trim(stderr),
                },
            );
        }
        Ok(trim(stdout))
    }
}

// ─────────────────────── the cluster ───────────────────────

/// The beans as a cluster. Without leave to write it is in shadow mode: it
/// reads, and writes nothing.
pub struct JmxCluster<E: JmxEnv> {
    env: E,
    write_enabled: bool,
}

/// The number that was read, as a provider sees it.
pub open spec fn bean_limit_of(read: Result<u64, JmxErrorView>) -> Result<u64, ProviderErrorView> {
    match read {
        Ok(v) => Ok(v),
        Err(e) => Err(e.to_provider()),
    }
}

/// The limit from an attribute that was read.
pub fn bean_limit(read: Result<u64, JmxError>) -> (r: Result<u64, ProviderError>)
    ensures
        crate::provider::provider_result(r) == bean_limit_of(jmx_result(read)),
{
    match read {
        Ok(v) => Ok(v),
        Err(e) => Err(e.into_provider()),
    }
}

/// The receipt of an attribute that was written.
pub fn bean_receipt(written: Result<(), JmxError>) -> (r: Result<AppliedReceipt, ProviderError>)
    ensures
        match written {
            Ok(_) => r matches Ok(receipt) && crate::provider::is_no_hash(receipt.source_hash),
            Err(e) => r matches Err(p) && p@ == e@.to_provider(),
        },
{
    match written {
        Ok(_) => Ok(blank_receipt()),
        Err(e) => Err(e.into_provider()),
    }
}

impl<E: JmxEnv> JmxCluster<E> {
    /// The environment.
    pub closed spec fn environment(&self) -> E {
        self.env
    }

    /// Whether it has leave to write.
    pub closed spec fn live(&self) -> bool {
        self.write_enabled
    }

    /// The beans of an environment.
    pub fn new(env: E, write_enabled: bool) -> (r: Self)
        ensures
            r.environment() == env,
            r.live() == write_enabled,
    {
        JmxCluster { env, write_enabled }
    }

    /// The beans in shadow mode.
    pub fn shadow(env: E) -> (r: Self)
        ensures
            r.environment() == env,
            !r.live(),
    {
        Self::new(env, false)
    }

    /// The environment.
    pub fn env(&self) -> (r: &E)
        ensures
            *r == self.environment(),
    {
        &self.env
    }

    /// Whether it has leave to write.
    pub fn writes_enabled(&self) -> (r: bool)
        ensures
            r == self.live(),
    {
        self.write_enabled
    }

    /// Usage is never read from beans.
    pub fn read_used(&self, source: &MetricSource) -> (r: Result<Sample, ProviderError>)
        ensures
            r matches Err(e) && e@ == ProviderErrorView::ApiPermanent(
                "JmxCluster has no `used` plane (read the band's metric via the metric Cluster; JMX owns the limit only)"@,
            ),
    {
        Err(
            ProviderError::permanent(
                "JmxCluster has no `used` plane (read the band's metric via the metric Cluster; JMX owns the limit only)",
            ),
        )
    }

    /// The limit that a layout holds.
    pub fn read_limit(&self, target: &Target, layout: &LimitLayout, resource: &str) -> (r: Result<
        u64,
        ProviderError,
    >)
        ensures
            match *layout {
                LimitLayout::ApiCall { endpoint, command } => exists|x: Result<u64, JmxError>|
                    #[trigger] self.environment().gives(endpoint@, command@, x)
                        && crate::provider::provider_result(r) == bean_limit_of(jmx_result(x)),
                _ => r matches Err(e) && e@ == ProviderErrorView::ApiPermanent(
                    "non-ApiCall layout on JmxCluster (route k8s/host dimensions to their own Cluster)"@,
                ),
            },
    {
        match layout {
            LimitLayout::ApiCall { endpoint, command } => {
                let read = self.env.read_mbean(endpoint.as_str(), command.as_str());
                assert(self.environment().gives(endpoint@, command@, read));
                bean_limit(read)
            },
            _ => Err(
                ProviderError::permanent(
                    "non-ApiCall layout on JmxCluster (route k8s/host dimensions to their own Cluster)",
                ),
            ),
        }
    }

    /// Who owns an attribute: a bean has no owners.
    pub fn field_owners(
        &self,
        target: &Target,
        layout: &LimitLayout,
        resource: &str,
        logical_field: &str,
    ) -> (r: Result<Vec<FieldOwner>, ProviderError>)
        ensures
            r matches Ok(owners) && owners@.len() == 0,
    {
        Ok(Vec::new())
    }

    /// Applies a patch: in live mode the attribute is written with the patch's
    /// value, in shadow mode and for any other layout the beans stay as they are.
    pub fn apply(&mut self, patch: &SsaPatch) -> (r: Result<AppliedReceipt, ProviderError>)
        ensures
            final(self).live() == old(self).live(),
            match patch.layout {
                LimitLayout::ApiCall { endpoint, command } => if old(self).live() {
                    exists|x: Result<(), JmxError>|
                        #[trigger] old(self).environment().takes(
                            endpoint@,
                            command@,
                            patch.value,
                            x,
                            &final(self).environment(),
                        ) && match x {
                            Ok(_) => r matches Ok(receipt) && crate::provider::is_no_hash(
                                receipt.source_hash,
                            ),
                            Err(e) => r matches Err(p) && p@ == e@.to_provider(),
                        }
                } else {
                    (r matches Ok(receipt) && crate::provider::is_no_hash(receipt.source_hash))
                        && final(self).environment() == old(self).environment()
                },
                _ => (r matches Err(e) && e@ == ProviderErrorView::ApiPermanent(
                    "non-ApiCall layout on JmxCluster apply (route k8s/host dimensions to their own Cluster)"@,
                )) && final(self).environment() == old(self).environment(),
            },
    {
        match &patch.layout {
            LimitLayout::ApiCall { endpoint, command } => {
                if !self.write_enabled {
                    return Ok(blank_receipt());
                }
                let done = self.env.write_mbean(endpoint.as_str(), command.as_str(), patch.value);
                assert(old(self).environment().takes(
                    endpoint@,
                    command@,
                    patch.value,
                    done,
                    &self.environment(),
                ));
                bean_receipt(done)
            },
            _ => Err(
                ProviderError::permanent(
                    "non-ApiCall layout on JmxCluster apply (route k8s/host dimensions to their own Cluster)",
                ),
            ),
        }
    }
}

// ─────────────────────── laws ───────────────────────

/// The number of an answer is the one behind its first `"value"`, past a colon and
/// blanks, up to where the digits end.
pub proof fn an_answers_number_stands_behind_its_value(
    front: Seq<char>,
    between: Seq<char>,
    n: u64,
    back: Seq<char>,
)
    requires
        forall|j: int|
            0 <= j < front.len() ==> !#[trigger] crate::text::occurs_at(
                front + "\"value\""@ + between + crate::text::decimal(n as nat) + back,
                "\"value\""@,
                j,
            ),
        forall|i: int|
            0 <= i < between.len() ==> #[trigger] between[i] == ':' || between[i] == ' '
                || between[i] == '\t',
        back.len() > 0 ==> !('0' <= back[0] <= '9'),
    ensures
        jolokia_value_of(front + "\"value\""@ + between + crate::text::decimal(n as nat) + back)
            == Ok::<u64, JmxErrorView>(n),
{
    let key = "\"value\""@;
    let d = crate::text::decimal(n as nat);
    let body = front + key + between + d + back;
    crate::text::a_numeral_is_made_of_digits(n as nat);
    assert(body.subrange(front.len() as int, (front.len() + key.len()) as int) =~= key);
    crate::text::a_text_is_found_where_it_first_stands(body, key, front.len() as int);
    let after = body.skip((front.len() + key.len()) as int);
    assert(after =~= between + (d + back));
    assert((d + back)[0] == d[0]);
    assert forall|i: int| 0 <= i < between.len() implies CharClass::ColonOrBlank.holds(
        #[trigger] between[i],
    ) by {}
    crate::text::only_the_front_run_is_taken_off(between, d + back, CharClass::ColonOrBlank);
    let rest = d + back;
    assert forall|i: int| 0 <= i < d.len() implies CharClass::Digit.holds(#[trigger] rest[i]) by {
        assert(rest[i] == d[i]);
    }
    if back.len() > 0 {
        assert(rest[d.len() as int] == back[0]);
    }
    crate::text::lemma_leading_is(rest, CharClass::Digit, d.len() as int);
    assert(rest.take(d.len() as int) =~= d);
    crate::text::a_number_reads_back_from_its_numeral(n);
}

/// An answer without a `"value"`, or with something else than digits behind it, has
/// no number.
pub proof fn an_answer_without_digits_has_no_number(
    body: Seq<char>,
    front: Seq<char>,
    between: Seq<char>,
    back: Seq<char>,
)
    requires
        forall|i: int|
            0 <= i < between.len() ==> #[trigger] between[i] == ':' || between[i] == ' '
                || between[i] == '\t',
        back.len() > 0 ==> !('0' <= back[0] <= '9') && back[0] != ':' && back[0] != ' ' && back[0]
            != '\t',
    ensures
        (forall|j: int| !#[trigger] crate::text::occurs_at(body, "\"value\""@, j)) ==> (
        jolokia_value_of(body) matches Err(e) && e is Parse),
        (body == front + "\"value\""@ + between + back && (forall|j: int|
            0 <= j < front.len() ==> !#[trigger] crate::text::occurs_at(body, "\"value\""@, j)))
            ==> (jolokia_value_of(body) matches Err(e) && e is Parse),
{
    let key = "\"value\""@;
    crate::text::a_text_is_found_where_it_first_stands(body, key, front.len() as int);
    if body == front + key + between + back && (forall|j: int|
        0 <= j < front.len() ==> !#[trigger] crate::text::occurs_at(body, key, j)) {
        assert(body.subrange(front.len() as int, (front.len() + key.len()) as int) =~= key);
        let after = body.skip((front.len() + key.len()) as int);
        assert(after =~= between + back);
        assert forall|i: int| 0 <= i < between.len() implies CharClass::ColonOrBlank.holds(
            #[trigger] between[i],
        ) by {}
        crate::text::only_the_front_run_is_taken_off(between, back, CharClass::ColonOrBlank);
        assert(crate::text::leading(back, CharClass::Digit) == 0);
    }
}

/// A command that has no colon, or nothing in front of its last one or behind it,
/// names no attribute.
pub proof fn a_command_needs_a_bean_and_an_attribute(command: Seq<char>)
    ensures
        !command.contains(':') ==> mbean_of(command) is None,
        command.len() > 0 && command.last() == ':' ==> mbean_of(command) is None,
        command.len() > 0 && command[0] == ':' && !command.drop_first().contains(':') ==> mbean_of(
            command,
        ) is None,
{
    let n = command.len() as int;
    crate::text::lemma_last_place(command, ':', n);
    match crate::text::last_place(command, ':', n) {
        Some(i) => {
            assert(command.contains(command[i]));
            if command.last() == ':' && i < n - 1 {
                assert(command[n - 1] != ':');
            }
            if i > 0 {
                assert(command.drop_first()[i - 1] == ':');
                assert(command.drop_first().contains(':'));
            }
        },
        None => {},
    }
}

/// A bridge that is on is asked at the endpoint, slashes at its end aside, for the
/// method, the bean and the attribute, and for a write with the value behind them.
/// One that is off is never asked.
pub proof fn a_request_goes_to_the_beans_attribute(
    method: Seq<char>,
    what: Seq<char>,
    endpoint: Seq<char>,
    slashes: Seq<char>,
    bean: Seq<char>,
    attribute: Seq<char>,
    value: u64,
)
    requires
        endpoint.len() > 0 ==> endpoint.last() != '/',
        forall|i: int| 0 <= i < slashes.len() ==> #[trigger] slashes[i] == '/',
        bean.len() > 0,
        attribute.len() > 0,
        forall|i: int| 0 <= i < attribute.len() ==> #[trigger] attribute[i] != ':',
    ensures
        ({
            let command = bean + ":"@ + attribute;
            let url = endpoint + "/"@ + method + "/"@ + bean + "/"@ + attribute;
            let e = endpoint + slashes;
            &&& request_of(true, method, what, e, command, None) == Ok::<
                Seq<Seq<char>>,
                JmxErrorView,
            >(seq!["-sf"@, "-m"@, "5"@, url])
            &&& request_of(true, method, what, e, command, Some(value)) == Ok::<
                Seq<Seq<char>>,
                JmxErrorView,
            >(seq!["-sf"@, "-m"@, "5"@, url + "/"@ + crate::text::decimal(value as nat)])
            &&& request_of(false, method, what, e, command, Some(value)) is Err
            &&& request_of(false, method, what, e, command, None) is Err
        }),
{
    assert forall|i: int| 0 <= i < slashes.len() implies CharClass::Slash.holds(
        #[trigger] slashes[i],
    ) by {
        assert(slashes[i] == '/');
    }
    crate::text::only_the_end_run_is_taken_off(endpoint, slashes, CharClass::Slash);
    a_joined_command_splits_again(bean, attribute);
}

/// What an error of the bridge means to a provider: an answer that cannot be read is
/// a missing metric, a bad command and a bridge that is off stay as they are, and
/// what failed on the way may mend.
pub proof fn only_failures_on_the_way_may_mend(e: JmxErrorView)
    ensures
        e.to_provider() is MetricsMissing <==> e is Parse,
        e.to_provider() is ApiPermanent <==> e is BadCommand || e is NotLinked,
        e.to_provider() is ApiTransient <==> e is Io || e is Command,
{
}

} // verus!
