//! The agent's configuration: its defaults, `key:value` parameter overrides, environment
//! overrides, the order in which they apply, and validation.
use vstd::prelude::*;

use crate::text::{
    ascii_lower_eq, ascii_lower_eq_chars, char_free, chars_of, find_char, is_first_index,
    lemma_split_once_at, split_once, str_eq, substring,
};

verus! {

/// Main configuration structure for the cluster agent.
#[derive(Debug, Clone)]
pub struct Config {
    pub grpc: GrpcConfig,
    pub file_watcher: FileWatcherConfig,
    pub kubernetes: KubernetesConfig,
    pub logging: LoggingConfig,
    pub allowed_namespaces: Vec<String>,
    pub container_logs_dir: String,
}

#[derive(Debug, Clone)]
pub struct GrpcConfig {
    pub address: String,
    pub tls: TlsConfig,
    pub health_check: bool,
    pub reflection: bool,
}

#[derive(Debug, Clone)]
pub struct TlsConfig {
    pub enabled: bool,
    pub cert_file: String,
    pub key_file: String,
}

#[derive(Debug, Clone, Copy, PartialEq, Eq, Structural)]
pub struct FileWatcherConfig {
    pub debounce_ms: u64,
    pub buffer_size: usize,
}

#[derive(Debug, Clone)]
pub struct KubernetesConfig {
    pub in_cluster: bool,
    pub kubeconfig_path: Option<String>,
}

#[derive(Debug, Clone)]
pub struct LoggingConfig {
    pub enabled: bool,
    pub level: String,
    pub format: String,
}

pub struct ConfigView {
    pub grpc: GrpcConfigView,
    pub file_watcher: FileWatcherConfig,
    pub kubernetes: KubernetesConfigView,
    pub logging: LoggingConfigView,
    pub allowed_namespaces: Seq<Seq<char>>,
    pub container_logs_dir: Seq<char>,
}

pub struct GrpcConfigView {
    pub address: Seq<char>,
    pub tls: TlsConfigView,
    pub health_check: bool,
    pub reflection: bool,
}

pub struct TlsConfigView {
    pub enabled: bool,
    pub cert_file: Seq<char>,
    pub key_file: Seq<char>,
}

pub struct KubernetesConfigView {
    pub in_cluster: bool,
    pub kubeconfig_path: Option<Seq<char>>,
}

pub struct LoggingConfigView {
    pub enabled: bool,
    pub level: Seq<char>,
    pub format: Seq<char>,
}

impl View for TlsConfig {
    type V = TlsConfigView;

    open spec fn view(&self) -> TlsConfigView {
        TlsConfigView { enabled: self.enabled, cert_file: self.cert_file@, key_file: self.key_file@ }
    }
}

impl View for GrpcConfig {
    type V = GrpcConfigView;

    open spec fn view(&self) -> GrpcConfigView {
        GrpcConfigView {
            address: self.address@,
            tls: self.tls@,
            health_check: self.health_check,
            reflection: self.reflection,
        }
    }
}

impl View for KubernetesConfig {
    type V = KubernetesConfigView;

    open spec fn view(&self) -> KubernetesConfigView {
        KubernetesConfigView {
            in_cluster: self.in_cluster,
            kubeconfig_path: match self.kubeconfig_path {
                Some(p) => Some(p@),
                None => None,
            },
        }
    }
}

impl View for LoggingConfig {
    type V = LoggingConfigView;

    open spec fn view(&self) -> LoggingConfigView {
        LoggingConfigView { enabled: self.enabled, level: self.level@, format: self.format@ }
    }
}

impl View for Config {
    type V = ConfigView;

    open spec fn view(&self) -> ConfigView {
        ConfigView {
            grpc: self.grpc@,
            file_watcher: self.file_watcher,
            kubernetes: self.kubernetes@,
            logging: self.logging@,
            allowed_namespaces: self.allowed_namespaces@.map_values(|s: String| s@),
            container_logs_dir: self.container_logs_dir@,
        }
    }
}

/// The default listening address.
pub open spec fn default_address() -> Seq<char> {
    ":50051"@
}

/// The configuration the agent starts from.
pub open spec fn default_config() -> ConfigView {
    ConfigView {
        grpc: GrpcConfigView {
            address: default_address(),
            tls: TlsConfigView {
                enabled: false,
                cert_file: Seq::empty(),
                key_file: Seq::empty(),
            },
            health_check: true,
            reflection: false,
        },
        file_watcher: FileWatcherConfig { debounce_ms: 2000, buffer_size: 1000 },
        kubernetes: KubernetesConfigView { in_cluster: true, kubeconfig_path: None },
        logging: LoggingConfigView { enabled: true, level: "info"@, format: "json"@ },
        allowed_namespaces: Seq::empty(),
        container_logs_dir: "/var/log/containers"@,
    }
}

impl Default for Config {
    fn default() -> (c: Self)
        ensures
            c@ == default_config(),
    {
        let c = Config {
            grpc: GrpcConfig {
                address: String::from_str(":50051"),
                tls: TlsConfig {
                    enabled: false,
                    cert_file: String::new(),
                    key_file: String::new(),
                },
                health_check: true,
                reflection: false,
            },
            file_watcher: FileWatcherConfig { debounce_ms: 2000, buffer_size: 1000 },
            kubernetes: KubernetesConfig { in_cluster: true, kubeconfig_path: None },
            logging: LoggingConfig {
                enabled: true,
                level: String::from_str("info"),
                format: String::from_str("json"),
            },
            allowed_namespaces: Vec::new(),
            container_logs_dir: String::from_str("/var/log/containers"),
        };
        assert(c@.allowed_namespaces =~= Seq::<Seq<char>>::empty());
        assert(c@.grpc.tls.cert_file =~= Seq::<char>::empty());
        assert(c@.grpc.tls.key_file =~= Seq::<char>::empty());
        c
    }
}

/// A boolean setting that a parameter can set.
#[derive(Debug, Clone, Copy, PartialEq, Eq, Structural)]
pub enum BoolSetting {
    LoggingEnabled,
    TlsEnabled,
}

/// Why a `key:value` parameter was refused.
#[derive(Debug, Clone)]
pub enum ParamError {
    /// The parameter holds no `:`.
    InvalidFormat,
    /// The value of a boolean setting is neither `true` nor `false`.
    InvalidBool(BoolSetting),
    /// The key names no setting.
    UnknownKey(String),
}

pub enum ParamErrorView {
    InvalidFormat,
    InvalidBool(BoolSetting),
    UnknownKey(Seq<char>),
}

impl View for ParamError {
    type V = ParamErrorView;

    open spec fn view(&self) -> ParamErrorView {
        match self {
            ParamError::InvalidFormat => ParamErrorView::InvalidFormat,
            ParamError::InvalidBool(s) => ParamErrorView::InvalidBool(*s),
            ParamError::UnknownKey(k) => ParamErrorView::UnknownKey(k@),
        }
    }
}

/// Why a configuration could not be loaded or is not valid.
#[derive(Debug, Clone)]
pub enum ConfigError {
    /// A parameter was refused.
    InvalidParameter { param: String, reason: ParamError },
    /// The gRPC address is empty.
    EmptyAddress,
    /// TLS is enabled without both a certificate file and a key file.
    MissingTlsFiles,
    /// The container logs directory does not exist.
    MissingContainerLogsDir(String),
    /// The logging level is not one of trace, debug, info, warn, error.
    InvalidLoggingLevel(String),
}

pub enum ConfigErrorView {
    InvalidParameter { param: Seq<char>, reason: ParamErrorView },
    EmptyAddress,
    MissingTlsFiles,
    MissingContainerLogsDir(Seq<char>),
    InvalidLoggingLevel(Seq<char>),
}

impl View for ConfigError {
    type V = ConfigErrorView;

    open spec fn view(&self) -> ConfigErrorView {
        match self {
            ConfigError::InvalidParameter { param, reason } => ConfigErrorView::InvalidParameter {
                param: param@,
                reason: reason@,
            },
            ConfigError::EmptyAddress => ConfigErrorView::EmptyAddress,
            ConfigError::MissingTlsFiles => ConfigErrorView::MissingTlsFiles,
            ConfigError::MissingContainerLogsDir(d) => ConfigErrorView::MissingContainerLogsDir(d@),
            ConfigError::InvalidLoggingLevel(l) => ConfigErrorView::InvalidLoggingLevel(l@),
        }
    }
}

/// A boolean as `bool`'s `FromStr` reads it: exactly `true` or `false`.
pub open spec fn parse_bool(value: Seq<char>) -> Option<bool> {
    if value == "true"@ {
        Some(true)
    } else if value == "false"@ {
        Some(false)
    } else {
        None
    }
}

/// The configuration after one `key:value` parameter: the key is what precedes the first `:`,
/// the value all that follows it.
pub open spec fn apply_param_to(c: ConfigView, param: Seq<char>) -> Result<
    ConfigView,
    ParamErrorView,
> {
    match split_once(param, ':') {
        None => Err(ParamErrorView::InvalidFormat),
        Some((key, value)) => {
            if key == "cluster-agent.addr"@ {
                Ok(ConfigView { grpc: GrpcConfigView { address: value, ..c.grpc }, ..c })
            } else if key == "cluster-agent.logging.enabled"@ {
                match parse_bool(value) {
                    Some(b) => Ok(
                        ConfigView { logging: LoggingConfigView { enabled: b, ..c.logging }, ..c },
                    ),
                    None => Err(ParamErrorView::InvalidBool(BoolSetting::LoggingEnabled)),
                }
            } else if key == "cluster-agent.logging.level"@ {
                Ok(ConfigView { logging: LoggingConfigView { level: value, ..c.logging }, ..c })
            } else if key == "cluster-agent.logging.format"@ {
                Ok(ConfigView { logging: LoggingConfigView { format: value, ..c.logging }, ..c })
            } else if key == "cluster-agent.tls.enabled"@ {
                match parse_bool(value) {
                    Some(b) => Ok(
                        ConfigView {
                            grpc: GrpcConfigView {
                                tls: TlsConfigView { enabled: b, ..c.grpc.tls },
                                ..c.grpc
                            },
                            ..c
                        },
                    ),
                    None => Err(ParamErrorView::InvalidBool(BoolSetting::TlsEnabled)),
                }
            } else if key == "cluster-agent.tls.cert-file"@ {
                Ok(
                    ConfigView {
                        grpc: GrpcConfigView {
                            tls: TlsConfigView { cert_file: value, ..c.grpc.tls },
                            ..c.grpc
                        },
                        ..c
                    },
                )
            } else if key == "cluster-agent.tls.key-file"@ {
                Ok(
                    ConfigView {
                        grpc: GrpcConfigView {
                            tls: TlsConfigView { key_file: value, ..c.grpc.tls },
                            ..c.grpc
                        },
                        ..c
                    },
                )
            } else if key == "container-logs-dir"@ {
                Ok(ConfigView { container_logs_dir: value, ..c })
            } else {
                Err(ParamErrorView::UnknownKey(key))
            }
        },
    }
}

/// The configuration after the parameters in order; the first refused parameter, with the
/// reason, if one is refused.
pub open spec fn apply_params_to(c: ConfigView, params: Seq<Seq<char>>) -> Result<
    ConfigView,
    (Seq<char>, ParamErrorView),
>
    decreases params.len(),
{
    if params.len() == 0 {
        Ok(c)
    } else {
        match apply_params_to(c, params.drop_last()) {
            Err(e) => Err(e),
            Ok(c1) => match apply_param_to(c1, params.last()) {
                Ok(c2) => Ok(c2),
                Err(e) => Err((params.last(), e)),
            },
        }
    }
}

/// The view of an optional configuration.
pub open spec fn config_file_view(file: Option<Config>) -> Option<ConfigView> {
    match file {
        Some(f) => Some(f@),
        None => None,
    }
}

/// Overrides read from the environment: `CLUSTER_AGENT_ADDR` and `CONTAINER_LOGS_DIR`.
pub struct EnvOverrides {
    pub cluster_agent_addr: Option<String>,
    pub container_logs_dir: Option<String>,
}

pub struct EnvOverridesView {
    pub cluster_agent_addr: Option<Seq<char>>,
    pub container_logs_dir: Option<Seq<char>>,
}

impl View for EnvOverrides {
    type V = EnvOverridesView;

    open spec fn view(&self) -> EnvOverridesView {
        EnvOverridesView {
            cluster_agent_addr: match self.cluster_agent_addr {
                Some(a) => Some(a@),
                None => None,
            },
            container_logs_dir: match self.container_logs_dir {
                Some(d) => Some(d@),
                None => None,
            },
        }
    }
}

/// The configuration after the environment overrides.
pub open spec fn apply_env_to(c: ConfigView, env: EnvOverridesView) -> ConfigView {
    let c1 = match env.cluster_agent_addr {
        Some(a) => ConfigView { grpc: GrpcConfigView { address: a, ..c.grpc }, ..c },
        None => c,
    };
    match env.container_logs_dir {
        Some(d) => ConfigView { container_logs_dir: d, ..c1 },
        None => c1,
    }
}

/// The configuration that the configuration file, or else the defaults, give, with the address
/// flag on top where it differs from the default address.
pub open spec fn base_config(file: Option<ConfigView>, addr_override: Seq<char>) -> ConfigView {
    let c1 = match file {
        Some(f) => f,
        None => default_config(),
    };
    if addr_override != default_address() {
        ConfigView { grpc: GrpcConfigView { address: addr_override, ..c1.grpc }, ..c1 }
    } else {
        c1
    }
}

/// The loaded configuration: the configuration file if there is one, else the defaults; then the
/// address flag if it differs from the default address; then the parameters in order; then the
/// environment.
pub open spec fn load_config(
    file: Option<ConfigView>,
    params: Seq<Seq<char>>,
    addr_override: Seq<char>,
    env: EnvOverridesView,
) -> Result<ConfigView, ConfigErrorView> {
    let c2 = base_config(file, addr_override);
    match apply_params_to(c2, params) {
        Err((p, e)) => Err(ConfigErrorView::InvalidParameter { param: p, reason: e }),
        Ok(c3) => Ok(apply_env_to(c3, env)),
    }
}

/// A logging level that the agent accepts, in any ASCII case. (Folding only ASCII letters gives
/// the same verdict as full Unicode lower-casing here: the only other characters that lower-case
/// to ASCII are the Kelvin sign, to `k`, which none of the levels holds, and U+0130, to `i`
/// followed by U+0307, which no level holds.)
pub open spec fn valid_logging_level(level: Seq<char>) -> bool {
    ||| ascii_lower_eq(level, "trace"@)
    ||| ascii_lower_eq(level, "debug"@)
    ||| ascii_lower_eq(level, "info"@)
    ||| ascii_lower_eq(level, "warn"@)
    ||| ascii_lower_eq(level, "error"@)
}

/// The verdict on a configuration, checks in order: a non-empty address, both TLS files when
/// TLS is on, an existing container logs directory, a known logging level.
pub open spec fn validation(c: ConfigView, logs_dir_exists: bool) -> Result<(), ConfigErrorView> {
    if c.grpc.address.len() == 0 {
        Err(ConfigErrorView::EmptyAddress)
    } else if c.grpc.tls.enabled && (c.grpc.tls.cert_file.len() == 0 || c.grpc.tls.key_file.len()
        == 0) {
        Err(ConfigErrorView::MissingTlsFiles)
    } else if !logs_dir_exists {
        Err(ConfigErrorView::MissingContainerLogsDir(c.container_logs_dir))
    } else if !valid_logging_level(c.logging.level) {
        Err(ConfigErrorView::InvalidLoggingLevel(c.logging.level))
    } else {
        Ok(())
    }
}

/// Whether a string reads `true` or `false`, as `bool`'s `FromStr` reads it.
fn parse_bool_str(value: &str) -> (r: Option<bool>)
    ensures
        r == parse_bool(value@),
{
    if str_eq(value, "true") {
        Some(true)
    } else if str_eq(value, "false") {
        Some(false)
    } else {
        None
    }
}

impl Config {
    /// Applies one parameter in `key:value` form. A refused parameter leaves the configuration
    /// as it was.
    pub fn apply_param(config: &mut Config, param: &str) -> (r: Result<(), ParamError>)
        ensures
            r is Ok ==> apply_param_to(old(config)@, param@) == Ok::<ConfigView, ParamErrorView>(
                final(config)@,
            ),
            r matches Err(e) ==> apply_param_to(old(config)@, param@) == Err::<
                ConfigView,
                ParamErrorView,
            >(e@),
            r is Err ==> *final(config) == *old(config),
    {
        let v = chars_of(param);
        let n = v.len();
        let k = match find_char(&v, ':', 0) {
            Some(k) => k,
            None => {
                assert(char_free(param@, ':'));
                return Err(ParamError::InvalidFormat);
            },
        };
        let key = substring(&v, 0, k);
        let value = substring(&v, k + 1, n);
        proof {
            assert(param@.take(k as int) =~= key@);
            assert(param@.skip(k + 1) =~= value@);
            assert(is_first_index(param@, ':', k as int));
            lemma_split_once_at(param@, ':', k as int);
        }
        let key = key.as_str();
        if str_eq(key, "cluster-agent.addr") {
            config.grpc.address = value;
        } else if str_eq(key, "cluster-agent.logging.enabled") {
            match parse_bool_str(value.as_str()) {
                Some(b) => {
                    config.logging.enabled = b;
                },
                None => {
                    return Err(ParamError::InvalidBool(BoolSetting::LoggingEnabled));
                },
            }
        } else if str_eq(key, "cluster-agent.logging.level") {
            config.logging.level = value;
        } else if str_eq(key, "cluster-agent.logging.format") {
            config.logging.format = value;
        } else if str_eq(key, "cluster-agent.tls.enabled") {
            match parse_bool_str(value.as_str()) {
                Some(b) => {
                    config.grpc.tls.enabled = b;
                },
                None => {
                    return Err(ParamError::InvalidBool(BoolSetting::TlsEnabled));
                },
            }
        } else if str_eq(key, "cluster-agent.tls.cert-file") {
            config.grpc.tls.cert_file = value;
        } else if str_eq(key, "cluster-agent.tls.key-file") {
            config.grpc.tls.key_file = value;
        } else if str_eq(key, "container-logs-dir") {
            config.container_logs_dir = value;
        } else {
            return Err(ParamError::UnknownKey(key.to_owned()));
        }
        Ok(())
    }

    /// Applies the environment overrides.
    pub fn apply_env_vars(config: &mut Config, env: EnvOverrides)
        ensures
            final(config)@ == apply_env_to(old(config)@, env@),
    {
        match env.cluster_agent_addr {
            Some(a) => {
                config.grpc.address = a;
            },
            None => {},
        }
        match env.container_logs_dir {
            Some(d) => {
                config.container_logs_dir = d;
            },
            None => {},
        }
    }

    /// Loads the configuration from the configuration file's contents (already read), the
    /// parameters, the address flag and the environment overrides.
    pub fn load(
        file_config: Option<Config>,
        params: &[String],
        addr_override: &str,
        env: EnvOverrides,
    ) -> (r: Result<Config, ConfigError>)
        ensures
            r matches Ok(c) ==> load_config(
                config_file_view(file_config),
                params@.map_values(|p: String| p@),
                addr_override@,
                env@,
            ) == Ok::<ConfigView, ConfigErrorView>(c@),
            r matches Err(e) ==> load_config(
                config_file_view(file_config),
                params@.map_values(|p: String| p@),
                addr_override@,
                env@,
            ) == Err::<ConfigView, ConfigErrorView>(e@),
    {
        let ghost pv = params@.map_values(|p: String| p@);
        let ghost fv = config_file_view(file_config);
        let ghost envv = env@;
        let mut config = match file_config {
            Some(f) => f,
            None => Config::default(),
        };
        if !str_eq(addr_override, ":50051") {
            config.grpc.address = addr_override.to_owned();
        }
        let ghost c2 = config@;
        assert(load_config(fv, pv, addr_override@, envv) == match apply_params_to(c2, pv) {
            Err((p, e)) => Err(ConfigErrorView::InvalidParameter { param: p, reason: e }),
            Ok(c3) => Ok(apply_env_to(c3, envv)),
        });
        for i in 0..params.len()
            invariant
                pv == params@.map_values(|p: String| p@),
                fv == config_file_view(file_config),
                load_config(fv, pv, addr_override@, envv) == match apply_params_to(c2, pv) {
                    Err((p, e)) => Err(ConfigErrorView::InvalidParameter { param: p, reason: e }),
                    Ok(c3) => Ok(apply_env_to(c3, envv)),
                },
                apply_params_to(c2, pv.take(i as int)) == Ok::<
                    ConfigView,
                    (Seq<char>, ParamErrorView),
                >(config@),
        {
            proof {
                assert(pv.take(i + 1).drop_last() =~= pv.take(i as int));
                assert(pv.take(i + 1).last() == params@[i as int]@);
            }
            match Config::apply_param(&mut config, params[i].as_str()) {
                Ok(()) => {},
                Err(reason) => {
                    proof {
                        assert(apply_params_to(c2, pv.take(i + 1)) == Err::<
                            ConfigView,
                            (Seq<char>, ParamErrorView),
                        >((params@[i as int]@, reason@)));
                        lemma_params_error_stays(c2, pv, i + 1);
                        assert(pv.take(pv.len() as int) =~= pv);
                    }
                    return Err(
                        ConfigError::InvalidParameter { param: params[i].clone(), reason },
                    );
                },
            }
        }
        assert(pv.take(params@.len() as int) =~= pv);
        Config::apply_env_vars(&mut config, env);
        Ok(config)
    }

    /// Validates the configuration; `logs_dir_exists` says whether the container logs directory
    /// exists.
    pub fn validate(&self, logs_dir_exists: bool) -> (r: Result<(), ConfigError>)
        ensures
            r is Ok ==> validation(self@, logs_dir_exists) == Ok::<(), ConfigErrorView>(()),
            r matches Err(e) ==> validation(self@, logs_dir_exists) == Err::<(), ConfigErrorView>(
                e@,
            ),
    {
        if self.grpc.address.as_str().is_empty() {
            return Err(ConfigError::EmptyAddress);
        }
        if self.grpc.tls.enabled {
            if self.grpc.tls.cert_file.as_str().is_empty() || self.grpc.tls.key_file.as_str().is_empty() {
                return Err(ConfigError::MissingTlsFiles);
            }
        }
        if !logs_dir_exists {
            return Err(ConfigError::MissingContainerLogsDir(self.container_logs_dir.clone()));
        }
        let level = chars_of(self.logging.level.as_str());
        let known = ascii_lower_eq_chars(&level, &chars_of("trace")) || ascii_lower_eq_chars(
            &level,
            &chars_of("debug"),
        ) || ascii_lower_eq_chars(&level, &chars_of("info")) || ascii_lower_eq_chars(
            &level,
            &chars_of("warn"),
        ) || ascii_lower_eq_chars(&level, &chars_of("error"));
        if !known {
            return Err(ConfigError::InvalidLoggingLevel(self.logging.level.clone()));
        }
        Ok(())
    }
}

/// Once a parameter is refused, more parameters do not change the outcome.
proof fn lemma_params_error_stays(c: ConfigView, params: Seq<Seq<char>>, i: int)
    requires
        0 <= i <= params.len(),
        apply_params_to(c, params.take(i)) is Err,
    ensures
        apply_params_to(c, params) == apply_params_to(c, params.take(i)),
    decreases params.len() - i,
{
    if i < params.len() {
        assert(params.take(i + 1).drop_last() =~= params.take(i));
        lemma_params_error_stays(c, params, i + 1);
    } else {
        assert(params.take(i) =~= params);
    }
}

/// A `cluster-agent.addr` parameter sets the address to everything after the first `:`, colons
/// included, and changes nothing else.
pub proof fn lemma_addr_param_sets_address(c: ConfigView, value: Seq<char>)
    ensures
        apply_param_to(c, "cluster-agent.addr"@ + seq![':'] + value) == Ok::<
            ConfigView,
            ParamErrorView,
        >(ConfigView { grpc: GrpcConfigView { address: value, ..c.grpc }, ..c }),
{
    reveal_strlit("cluster-agent.addr");
    let key = "cluster-agent.addr"@;
    let param = key + seq![':'] + value;
    let k = key.len() as int;
    assert(param.take(k) =~= key);
    assert(param.skip(k + 1) =~= value);
    assert(is_first_index(param, ':', k));
    lemma_split_once_at(param, ':', k);
}

/// A parameter without a `:` is refused as malformed.
pub proof fn lemma_param_without_colon_refused(c: ConfigView, param: Seq<char>)
    requires
        char_free(param, ':'),
    ensures
        apply_param_to(c, param) == Err::<ConfigView, ParamErrorView>(ParamErrorView::InvalidFormat),
{
}

/// Applying an accepted parameter a second time changes nothing more.
pub proof fn lemma_apply_param_idempotent(c: ConfigView, param: Seq<char>)
    requires
        apply_param_to(c, param) is Ok,
    ensures
        apply_param_to(apply_param_to(c, param)->Ok_0, param) == apply_param_to(c, param),
{
}

/// The default configuration is valid wherever the container logs directory exists.
pub proof fn lemma_default_config_valid()
    ensures
        validation(default_config(), true) == Ok::<(), ConfigErrorView>(()),
{
    reveal_strlit(":50051");
    reveal_strlit("info");
    assert(ascii_lower_eq("info"@, "info"@));
}

/// With no configuration file, no parameters, the default address and no environment
/// overrides, the loaded configuration is the default one.
pub proof fn lemma_load_defaults()
    ensures
        load_config(
            None,
            Seq::empty(),
            default_address(),
            EnvOverridesView { cluster_agent_addr: None, container_logs_dir: None },
        ) == Ok::<ConfigView, ConfigErrorView>(default_config()),
{
}

/// The environment overrides win over the configuration file, the parameters and the address
/// flag.
pub proof fn lemma_env_overrides_win(
    file: Option<ConfigView>,
    params: Seq<Seq<char>>,
    addr_override: Seq<char>,
    env: EnvOverridesView,
)
    requires
        load_config(file, params, addr_override, env) is Ok,
    ensures
        env.cluster_agent_addr matches Some(a) ==> load_config(
            file,
            params,
            addr_override,
            env,
        )->Ok_0.grpc.address == a,
        env.container_logs_dir matches Some(d) ==> load_config(
            file,
            params,
            addr_override,
            env,
        )->Ok_0.container_logs_dir == d,
{
}

/// A parameter outranks the configuration file and the address flag: the last parameter that
/// sets the address decides it, unless the environment sets it.
pub proof fn lemma_param_outranks_file(
    file: Option<ConfigView>,
    params: Seq<Seq<char>>,
    addr_override: Seq<char>,
    value: Seq<char>,
)
    requires
        params.len() > 0,
        params.last() == "cluster-agent.addr"@ + seq![':'] + value,
        load_config(
            file,
            params,
            addr_override,
            EnvOverridesView { cluster_agent_addr: None, container_logs_dir: None },
        ) is Ok,
    ensures
        load_config(
            file,
            params,
            addr_override,
            EnvOverridesView { cluster_agent_addr: None, container_logs_dir: None },
        )->Ok_0.grpc.address == value,
{
    let c2 = base_config(file, addr_override);
    let prior = apply_params_to(c2, params.drop_last());
    if prior is Ok {
        lemma_addr_param_sets_address(prior->Ok_0, value);
    }
}

/// The address flag outranks the configuration file: where it differs from the default address,
/// it is the address, unless a parameter or the environment sets the address.
pub proof fn lemma_addr_flag_outranks_file(
    file: Option<ConfigView>,
    params: Seq<Seq<char>>,
    addr_override: Seq<char>,
)
    requires
        addr_override != default_address(),
        forall|i: int|
            0 <= i < params.len() ==> !(#[trigger] split_once(params[i], ':') matches Some(
                (k, _),
            ) && k == "cluster-agent.addr"@),
        load_config(
            file,
            params,
            addr_override,
            EnvOverridesView { cluster_agent_addr: None, container_logs_dir: None },
        ) is Ok,
    ensures
        load_config(
            file,
            params,
            addr_override,
            EnvOverridesView { cluster_agent_addr: None, container_logs_dir: None },
        )->Ok_0.grpc.address == addr_override,
{
    lemma_params_keep_address(base_config(file, addr_override), params);
}

/// Parameters that do not set the address leave it as it was.
proof fn lemma_params_keep_address(c: ConfigView, params: Seq<Seq<char>>)
    requires
        forall|i: int|
            0 <= i < params.len() ==> !(#[trigger] split_once(params[i], ':') matches Some(
                (k, _),
            ) && k == "cluster-agent.addr"@),
    ensures
        apply_params_to(c, params) matches Ok(c1) ==> c1.grpc.address == c.grpc.address,
    decreases params.len(),
{
    if params.len() > 0 {
        let init = params.drop_last();
        assert forall|i: int|
            0 <= i < init.len() implies !(#[trigger] split_once(init[i], ':') matches Some(
                (k, _),
            ) && k == "cluster-agent.addr"@) by {
            assert(init[i] == params[i]);
        }
        lemma_params_keep_address(c, init);
        assert(split_once(params[params.len() - 1], ':') == split_once(params.last(), ':'));
    }
}

/// TLS needs both files: with TLS on and a non-empty address, a missing certificate file or a
/// missing key file, each on its own, refuses the configuration with `MissingTlsFiles`, whether or
/// not the logs directory exists and whatever the logging level.
pub proof fn lemma_tls_needs_both_files(c: ConfigView, logs_dir_exists: bool)
    requires
        c.grpc.address.len() > 0,
        c.grpc.tls.enabled,
        c.grpc.tls.cert_file.len() == 0 || c.grpc.tls.key_file.len() == 0,
    ensures
        validation(c, logs_dir_exists) == Err::<(), ConfigErrorView>(ConfigErrorView::MissingTlsFiles),
{
}

/// A configuration with a non-empty address, TLS off or with both files, an existing logs
/// directory and a known logging level is accepted.
pub proof fn lemma_complete_config_accepted(c: ConfigView)
    requires
        c.grpc.address.len() > 0,
        !c.grpc.tls.enabled || (c.grpc.tls.cert_file.len() > 0 && c.grpc.tls.key_file.len() > 0),
        valid_logging_level(c.logging.level),
    ensures
        validation(c, true) == Ok::<(), ConfigErrorView>(()),
{
}

/// A configuration file is taken whole: with no parameters and no environment overrides, the
/// loaded configuration is the file's, field for field, but for the address, which the address
/// flag replaces where it differs from the default address.
pub proof fn lemma_file_config_taken_whole(f: ConfigView, addr_override: Seq<char>)
    ensures
        ({
            let r = load_config(
                Some(f),
                Seq::empty(),
                addr_override,
                EnvOverridesView { cluster_agent_addr: None, container_logs_dir: None },
            );
            &&& r is Ok
            &&& r->Ok_0.logging == f.logging
            &&& r->Ok_0.file_watcher == f.file_watcher
            &&& r->Ok_0.kubernetes == f.kubernetes
            &&& r->Ok_0.allowed_namespaces == f.allowed_namespaces
            &&& r->Ok_0.container_logs_dir == f.container_logs_dir
            &&& r->Ok_0.grpc.tls == f.grpc.tls
            &&& r->Ok_0.grpc.health_check == f.grpc.health_check
            &&& r->Ok_0.grpc.reflection == f.grpc.reflection
            &&& r->Ok_0.grpc.address == if addr_override == default_address() {
                f.grpc.address
            } else {
                addr_override
            }
        }),
{
}

/// The text of a boolean.
pub open spec fn bool_text(b: bool) -> Seq<char> {
    if b {
        "true"@
    } else {
        "false"@
    }
}

/// `key:value` with the first `:` right after the key, when the key holds no `:`.
proof fn lemma_split_after_key(key: Seq<char>, value: Seq<char>)
    requires
        char_free(key, ':'),
    ensures
        split_once(key + seq![':'] + value, ':') == Some((key, value)),
{
    let param = key + seq![':'] + value;
    let k = key.len() as int;
    assert(param.take(k) =~= key);
    assert(param.skip(k + 1) =~= value);
    assert(param[k] == ':');
    assert(is_first_index(param, ':', k));
    lemma_split_once_at(param, ':', k);
}

/// A `cluster-agent.tls.enabled` parameter sets TLS on or off as its value says, `false` as well
/// as `true`, and changes nothing else.
pub proof fn lemma_tls_enabled_param_sets_flag(c: ConfigView, b: bool)
    ensures
        apply_param_to(c, "cluster-agent.tls.enabled"@ + seq![':'] + bool_text(b)) == Ok::<
            ConfigView,
            ParamErrorView,
        >(
            ConfigView {
                grpc: GrpcConfigView { tls: TlsConfigView { enabled: b, ..c.grpc.tls }, ..c.grpc },
                ..c
            },
        ),
{
    reveal_strlit("cluster-agent.tls.enabled");
    reveal_strlit("cluster-agent.addr");
    reveal_strlit("cluster-agent.logging.enabled");
    reveal_strlit("cluster-agent.logging.level");
    reveal_strlit("cluster-agent.logging.format");
    reveal_strlit("true");
    reveal_strlit("false");
    let key = "cluster-agent.tls.enabled"@;
    assert(char_free(key, ':'));
    lemma_split_after_key(key, bool_text(b));
    assert(key != "cluster-agent.addr"@);
    assert(key != "cluster-agent.logging.enabled"@);
    assert(key != "cluster-agent.logging.level"@);
    assert(key != "cluster-agent.logging.format"@);
    assert(parse_bool(bool_text(b)) == Some(b));
}

/// A `cluster-agent.logging.enabled` parameter turns logging on or off as its value says, and
/// changes nothing else.
pub proof fn lemma_logging_enabled_param_sets_flag(c: ConfigView, b: bool)
    ensures
        apply_param_to(c, "cluster-agent.logging.enabled"@ + seq![':'] + bool_text(b)) == Ok::<
            ConfigView,
            ParamErrorView,
        >(ConfigView { logging: LoggingConfigView { enabled: b, ..c.logging }, ..c }),
{
    reveal_strlit("cluster-agent.addr");
    reveal_strlit("cluster-agent.logging.enabled");
    reveal_strlit("true");
    reveal_strlit("false");
    let key = "cluster-agent.logging.enabled"@;
    assert(char_free(key, ':'));
    lemma_split_after_key(key, bool_text(b));
    assert(key != "cluster-agent.addr"@);
    assert(parse_bool(bool_text(b)) == Some(b));
}

/// Keys that differ at some index are different keys.
proof fn lemma_keys_differ(a: Seq<char>, b: Seq<char>, i: int)
    requires
        0 <= i < a.len(),
        0 <= i < b.len(),
        a[i] != b[i],
    ensures
        a != b,
{
}

/// The text-valued parameters set their field to the value, everything after the first `:`
/// (colons included), and change nothing else.
pub proof fn lemma_text_params_set_fields(c: ConfigView, value: Seq<char>)
    ensures
        apply_param_to(c, "cluster-agent.logging.level"@ + seq![':'] + value) == Ok::<
            ConfigView,
            ParamErrorView,
        >(ConfigView { logging: LoggingConfigView { level: value, ..c.logging }, ..c }),
        apply_param_to(c, "cluster-agent.logging.format"@ + seq![':'] + value) == Ok::<
            ConfigView,
            ParamErrorView,
        >(ConfigView { logging: LoggingConfigView { format: value, ..c.logging }, ..c }),
        apply_param_to(c, "cluster-agent.tls.cert-file"@ + seq![':'] + value) == Ok::<
            ConfigView,
            ParamErrorView,
        >(
            ConfigView {
                grpc: GrpcConfigView {
                    tls: TlsConfigView { cert_file: value, ..c.grpc.tls },
                    ..c.grpc
                },
                ..c
            },
        ),
        apply_param_to(c, "cluster-agent.tls.key-file"@ + seq![':'] + value) == Ok::<
            ConfigView,
            ParamErrorView,
        >(
            ConfigView {
                grpc: GrpcConfigView { tls: TlsConfigView { key_file: value, ..c.grpc.tls }, ..c.grpc },
                ..c
            },
        ),
        apply_param_to(c, "container-logs-dir"@ + seq![':'] + value) == Ok::<
            ConfigView,
            ParamErrorView,
        >(ConfigView { container_logs_dir: value, ..c }),
{
    reveal_strlit("cluster-agent.addr");
    reveal_strlit("cluster-agent.logging.enabled");
    reveal_strlit("cluster-agent.logging.level");
    reveal_strlit("cluster-agent.logging.format");
    reveal_strlit("cluster-agent.tls.enabled");
    reveal_strlit("cluster-agent.tls.cert-file");
    reveal_strlit("cluster-agent.tls.key-file");
    reveal_strlit("container-logs-dir");
    let level = "cluster-agent.logging.level"@;
    let format = "cluster-agent.logging.format"@;
    let cert = "cluster-agent.tls.cert-file"@;
    let key = "cluster-agent.tls.key-file"@;
    let dir = "container-logs-dir"@;
    assert(char_free(level, ':'));
    assert(char_free(format, ':'));
    assert(char_free(cert, ':'));
    assert(char_free(key, ':'));
    assert(char_free(dir, ':'));
    lemma_split_after_key(level, value);
    lemma_split_after_key(format, value);
    lemma_split_after_key(cert, value);
    lemma_split_after_key(key, value);
    lemma_split_after_key(dir, value);
    lemma_keys_differ(level, "cluster-agent.logging.enabled"@, 22);
    lemma_keys_differ(cert, "cluster-agent.logging.level"@, 14);
    lemma_keys_differ(cert, "cluster-agent.logging.format"@, 14);
    lemma_keys_differ(key, "cluster-agent.logging.level"@, 14);
    lemma_keys_differ(key, "cluster-agent.logging.format"@, 14);
    lemma_keys_differ(key, "cluster-agent.tls.enabled"@, 18);
    lemma_keys_differ(cert, "cluster-agent.tls.enabled"@, 18);
    lemma_keys_differ(key, "cluster-agent.tls.cert-file"@, 18);
    lemma_keys_differ(format, "cluster-agent.logging.enabled"@, 22);
    lemma_keys_differ(dir, "cluster-agent.addr"@, 1);
    lemma_keys_differ(dir, "cluster-agent.logging.enabled"@, 1);
    lemma_keys_differ(dir, "cluster-agent.logging.level"@, 1);
    lemma_keys_differ(dir, "cluster-agent.logging.format"@, 1);
    lemma_keys_differ(dir, "cluster-agent.tls.enabled"@, 1);
    lemma_keys_differ(dir, "cluster-agent.tls.cert-file"@, 1);
    lemma_keys_differ(dir, "cluster-agent.tls.key-file"@, 1);
}

/// The checks of a configuration, each on its own: an empty address is refused first; with the
/// address and TLS files in order, a missing logs directory is refused; with those in order too,
/// an unknown logging level is refused.
pub proof fn lemma_validation_refusals(c: ConfigView, logs_dir_exists: bool)
    ensures
        c.grpc.address.len() == 0 ==> validation(c, logs_dir_exists) == Err::<(), ConfigErrorView>(
            ConfigErrorView::EmptyAddress,
        ),
        c.grpc.address.len() > 0 && (!c.grpc.tls.enabled || (c.grpc.tls.cert_file.len() > 0
            && c.grpc.tls.key_file.len() > 0)) && !logs_dir_exists ==> validation(
            c,
            logs_dir_exists,
        ) == Err::<(), ConfigErrorView>(
            ConfigErrorView::MissingContainerLogsDir(c.container_logs_dir),
        ),
        c.grpc.address.len() > 0 && (!c.grpc.tls.enabled || (c.grpc.tls.cert_file.len() > 0
            && c.grpc.tls.key_file.len() > 0)) && logs_dir_exists && !valid_logging_level(
            c.logging.level,
        ) ==> validation(c, logs_dir_exists) == Err::<(), ConfigErrorView>(
            ConfigErrorView::InvalidLoggingLevel(c.logging.level),
        ),
{
}

} // verus!
