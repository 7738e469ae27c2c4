//! Opt-in runtime diagnostics: task inspection, periodic runtime metrics
//! logging, and wall-clock flame graphs.
//!
//! Everything is disabled unless turned on in the settings. This module
//! decides which diagnostics run, where their output goes, and what the
//! metrics lines say.
use crate::bytes::{copy_bytes, same_bytes};
use crate::paths::{absolute, join, with_path};
use crate::text::{debug_quoted, push_decimal, text_lossy, trim};
use vstd::prelude::*;

verus! {

/// Placeholder for the home directory in output paths.
pub const HOME_PLACEHOLDER: &'static str = "$AENV_HOME";

/// Settings of the task inspection.
#[derive(Debug, Clone)]
pub struct TokioConsoleConfig {
    /// Serve task data from the server process. Has overhead when on.
    pub enabled: bool,
    pub bind_addr: String,
}

/// Settings of the runtime metrics.
#[derive(Debug, Clone)]
pub struct TokioRuntimeMetricsConfig {
    /// Append a summary line to `output_path` every `interval_secs`.
    pub enabled: bool,
    pub interval_secs: u64,
    pub output_path: Vec<u8>,
}

/// Settings of the flame graph.
#[derive(Debug, Clone)]
pub struct TracingFlameConfig {
    /// Write folded-stack data while the server runs.
    pub enabled: bool,
    pub output_path: Vec<u8>,
}

/// Settings of the diagnostics.
#[derive(Debug, Clone)]
pub struct TokioDiagnosticsConfig {
    /// Live task inspection.
    pub console: TokioConsoleConfig,
    /// Periodic runtime metrics logging (poll times, queue depths).
    pub runtime_metrics: TokioRuntimeMetricsConfig,
    /// Wall-clock flame graph output.
    pub flame: TracingFlameConfig,
}

impl Default for TokioConsoleConfig {
    fn default() -> (config: Self)
        ensures
            !config.enabled,
            config.bind_addr@ == "0.0.0.0:6669"@,
    {
        TokioConsoleConfig { enabled: false, bind_addr: "0.0.0.0:6669".to_string() }
    }
}

impl Default for TokioRuntimeMetricsConfig {
    fn default() -> (config: Self)
        ensures
            !config.enabled,
            config.interval_secs == 10,
            config.output_path@ == vstd::utf8::encode_utf8("$AENV_HOME/logs/tokio-metrics.log"@),
    {
        TokioRuntimeMetricsConfig {
            enabled: false,
            interval_secs: 10,
            output_path: copy_bytes("$AENV_HOME/logs/tokio-metrics.log".as_bytes()),
        }
    }
}

impl Default for TracingFlameConfig {
    fn default() -> (config: Self)
        ensures
            !config.enabled,
            config.output_path@ == vstd::utf8::encode_utf8("$AENV_HOME/logs/tracing-flame.folded"@),
    {
        TracingFlameConfig {
            enabled: false,
            output_path: copy_bytes("$AENV_HOME/logs/tracing-flame.folded".as_bytes()),
        }
    }
}

/// `text` with every occurrence of `pattern`, taken from left to right,
/// replaced by `with`.
pub open spec fn replaced(text: Seq<char>, pattern: Seq<char>, with: Seq<char>) -> Seq<char>
    decreases text.len(),
{
    if text.len() == 0 || pattern.len() == 0 {
        text
    } else if pattern.is_prefix_of(text) {
        with + replaced(text.skip(pattern.len() as int), pattern, with)
    } else {
        seq![text[0]] + replaced(text.skip(1), pattern, with)
    }
}

/// A path with the home placeholder filled in. A path that is not UTF-8 is
/// kept as it is.
pub open spec fn filled(raw: Seq<u8>, home: Seq<u8>) -> Seq<u8> {
    if vstd::utf8::valid_utf8(raw) {
        vstd::utf8::encode_utf8(
            replaced(
                vstd::utf8::decode_utf8(raw),
                HOME_PLACEHOLDER@,
                crate::text::utf8_lossy(home),
            ),
        )
    } else {
        raw
    }
}

/// An output path with the home placeholder filled in, anchored at the
/// settings' directory when it is still relative.
pub open spec fn expanded(raw: Seq<u8>, home: Seq<u8>, config_dir: Seq<u8>) -> Seq<u8> {
    let path = filled(raw, home);
    if crate::paths::is_absolute(path) {
        path
    } else {
        crate::paths::joined(config_dir, path)
    }
}

fn starts_at(text: &str, at: usize, pattern: &str) -> (found: bool)
    requires
        at <= text@.len(),
    ensures
        found == pattern@.is_prefix_of(text@.skip(at as int)),
{
    let len: usize = pattern.unicode_len();
    let total: usize = text.unicode_len();
    if total - at < len {
        return false;
    }
    let mut i: usize = 0;
    while i < len
        invariant
            i <= len == pattern@.len(),
            at + len <= total == text@.len(),
            forall|j: int| 0 <= j < i ==> #[trigger] text@[at + j] == pattern@[j],
        decreases len - i,
    {
        if text.get_char(at + i) != pattern.get_char(i) {
            assert(text@.skip(at as int)[i as int] != pattern@[i as int]);
            return false;
        }
        i = i + 1;
    }
    assert forall|j: int| 0 <= j < len implies #[trigger] pattern@[j] == text@.skip(
        at as int,
    )[j] by {
        assert(text@[at + j] == pattern@[j]);
    }
    assert(pattern@ =~= text@.skip(at as int).subrange(0, len as int));
    true
}

/// `text` with every occurrence of `pattern` replaced by `with`.
pub fn replace(text: &str, pattern: &str, with: &str) -> (result: String)
    ensures
        result@ == replaced(text@, pattern@, with@),
{
    let step: usize = pattern.unicode_len();
    if step == 0 {
        return text.to_string();
    }
    let total: usize = text.unicode_len();
    let mut out = String::new();
    let mut at: usize = 0;
    assert(text@.skip(0) =~= text@);
    while at < total
        invariant
            at <= total == text@.len(),
            step == pattern@.len() > 0,
            out@ + replaced(text@.skip(at as int), pattern@, with@) == replaced(
                text@,
                pattern@,
                with@,
            ),
        decreases total - at,
    {
        let ghost rest = text@.skip(at as int);
        if starts_at(text, at, pattern) {
            assert(rest.skip(step as int) =~= text@.skip(at + step));
            out.append(with);
            at = at + step;
        } else {
            assert(rest.skip(1) =~= text@.skip(at + 1));
            assert(rest[0] == text@[at as int]);
            let ghost before = out@;
            out.push(text.get_char(at));
            assert(out@ =~= before + seq![rest[0]]);
            at = at + 1;
        }
        assert(out@ + replaced(text@.skip(at as int), pattern@, with@) =~= replaced(
            text@,
            pattern@,
            with@,
        ));
    }
    assert(out@ + replaced(text@.skip(at as int), pattern@, with@) =~= out@);
    out
}

/// A text holds no occurrence of the pattern.
pub open spec fn lacks(text: Seq<char>, pattern: Seq<char>) -> bool {
    forall|i: int| 0 <= i <= text.len() ==> !pattern.is_prefix_of(#[trigger] text.skip(i))
}

/// An absolute directory with a readable name that cannot hold a placeholder.
pub open spec fn plain_dir(dir: Seq<u8>) -> bool {
    &&& crate::paths::is_absolute(dir)
    &&& vstd::utf8::valid_utf8(dir)
    &&& !vstd::utf8::decode_utf8(dir).contains('$')
}

/// What is put in front of a text without separators does not join with the
/// text behind it: such a text starts the result of a replacement by a
/// separated path only where it starts the original.
proof fn lemma_prefix_of_replaced(
    part: Seq<char>,
    text: Seq<char>,
    pattern: Seq<char>,
    with: Seq<char>,
)
    requires
        !part.contains('/'),
        with.len() > 0,
        with[0] == '/',
        part.is_prefix_of(replaced(text, pattern, with)),
    ensures
        part.is_prefix_of(text),
    decreases text.len(),
{
    let result = replaced(text, pattern, with);
    if part.len() > 0 && text.len() > 0 && pattern.len() > 0 {
        assert(part[0] == result.subrange(0, part.len() as int)[0]);
        assert(part.contains(part[0]));
        if pattern.is_prefix_of(text) {
            assert(result[0] == '/');
        } else {
            let rest = replaced(text.skip(1), pattern, with);
            let tail = part.skip(1);
            assert forall|i: int| 0 <= i < tail.len() implies tail[i] == rest[i] by {
                assert(part[i + 1] == result.subrange(0, part.len() as int)[i + 1]);
            }
            assert(tail =~= rest.subrange(0, tail.len() as int));
            assert forall|c: char| tail.contains(c) implies part.contains(c) by {
                let i = choose|i: int| 0 <= i < tail.len() && tail[i] == c;
                assert(part[i + 1] == c);
            }
            lemma_prefix_of_replaced(tail, text.skip(1), pattern, with);
            assert forall|i: int| 0 <= i < part.len() implies part[i] == text[i] by {
                if i > 0 {
                    assert(tail[i - 1] == text.skip(1).subrange(0, tail.len() as int)[i - 1]);
                }
            }
            assert(part =~= text.subrange(0, part.len() as int));
        }
    }
}

/// Once every placeholder has been replaced by an absolute path that cannot
/// hold one, none is left.
proof fn lemma_replaced_lacks_pattern(text: Seq<char>, pattern: Seq<char>, with: Seq<char>)
    requires
        pattern.len() > 0,
        pattern[0] == '$',
        !pattern.contains('/'),
        with.len() > 0,
        with[0] == '/',
        !with.contains('$'),
    ensures
        lacks(replaced(text, pattern, with), pattern),
    decreases text.len(),
{
    let result = replaced(text, pattern, with);
    if text.len() > 0 {
        let found = pattern.is_prefix_of(text);
        let head = if found {
            with
        } else {
            seq![text[0]]
        };
        let after = if found {
            text.skip(pattern.len() as int)
        } else {
            text.skip(1)
        };
        let rest = replaced(after, pattern, with);
        lemma_replaced_lacks_pattern(after, pattern, with);
        assert forall|i: int| 0 <= i <= result.len() implies !pattern.is_prefix_of(
            #[trigger] result.skip(i),
        ) by {
            if i >= head.len() {
                assert(result.skip(i) =~= rest.skip(i - head.len()));
            } else if pattern.is_prefix_of(result.skip(i)) {
                assert(pattern[0] == result.skip(i).subrange(0, pattern.len() as int)[0]);
                if found {
                    assert(with.contains(with[i]));
                } else {
                    let tail = pattern.skip(1);
                    assert forall|j: int| 0 <= j < tail.len() implies tail[j] == rest[j] by {
                        assert(pattern[j + 1] == result.skip(i).subrange(
                            0,
                            pattern.len() as int,
                        )[j + 1]);
                    }
                    assert(tail =~= rest.subrange(0, tail.len() as int));
                    assert forall|c: char| tail.contains(c) implies pattern.contains(c) by {
                        let j = choose|j: int| 0 <= j < tail.len() && tail[j] == c;
                        assert(pattern[j + 1] == c);
                    }
                    lemma_prefix_of_replaced(tail, after, pattern, with);
                    assert forall|j: int| 0 <= j < pattern.len() implies pattern[j] == text[j] by {
                        if j > 0 {
                            assert(tail[j - 1] == after.subrange(0, tail.len() as int)[j - 1]);
                        }
                    }
                    assert(pattern =~= text.subrange(0, pattern.len() as int));
                }
            }
        }
    }
}

/// A text in front of which only text without the pattern's first character
/// stands lacks the pattern as a whole.
proof fn lemma_lacks_behind(front: Seq<char>, text: Seq<char>, pattern: Seq<char>)
    requires
        pattern.len() > 0,
        !front.contains(pattern[0]),
        lacks(text, pattern),
    ensures
        lacks(front + text, pattern),
{
    let whole = front + text;
    assert forall|i: int| 0 <= i <= whole.len() implies !pattern.is_prefix_of(
        #[trigger] whole.skip(i),
    ) by {
        if i >= front.len() {
            assert(whole.skip(i) =~= text.skip(i - front.len()));
        } else if pattern.is_prefix_of(whole.skip(i)) {
            assert(pattern[0] == whole.skip(i).subrange(0, pattern.len() as int)[0]);
            assert(front.contains(front[i]));
        }
    }
}

/// The placeholder starts with a dollar sign and holds no separator.
proof fn lemma_placeholder()
    ensures
        HOME_PLACEHOLDER@.len() > 0,
        HOME_PLACEHOLDER@[0] == '$',
        !HOME_PLACEHOLDER@.contains('/'),
{
    reveal_strlit("$AENV_HOME");
    assert(HOME_PLACEHOLDER@ == "$AENV_HOME"@);
}

/// A path without the placeholder is filled in to itself.
proof fn lemma_filled_unchanged(path: Seq<u8>, home: Seq<u8>)
    requires
        vstd::utf8::valid_utf8(path) ==> lacks(vstd::utf8::decode_utf8(path), HOME_PLACEHOLDER@),
    ensures
        filled(path, home) == path,
{
    if vstd::utf8::valid_utf8(path) {
        law_replacing_nothing_changes_nothing(
            vstd::utf8::decode_utf8(path),
            HOME_PLACEHOLDER@,
            crate::text::utf8_lossy(home),
        );
        vstd::utf8::decode_utf8_encode_utf8(path);
    }
}

/// An expanded path is expanded to itself.
proof fn lemma_expanded_stays(raw: Seq<u8>, home: Seq<u8>, config_dir: Seq<u8>)
    requires
        plain_dir(home),
        plain_dir(config_dir),
        crate::text::utf8_lossy(home) == vstd::utf8::decode_utf8(home),
    ensures
        expanded(expanded(raw, home, config_dir), home, config_dir) == expanded(
            raw,
            home,
            config_dir,
        ),
{
    let path = filled(raw, home);
    let whole = expanded(raw, home, config_dir);
    let pattern = HOME_PLACEHOLDER@;
    lemma_placeholder();
    crate::paths::law_joined_paths_stay_below_base(config_dir, path);
    crate::text::lemma_starts_with_separator(home);
    let valid = vstd::utf8::valid_utf8(raw);
    if valid {
        let text = replaced(
            vstd::utf8::decode_utf8(raw),
            pattern,
            vstd::utf8::decode_utf8(home),
        );
        lemma_replaced_lacks_pattern(
            vstd::utf8::decode_utf8(raw),
            pattern,
            vstd::utf8::decode_utf8(home),
        );
        vstd::utf8::encode_utf8_valid_utf8(text);
        vstd::utf8::encode_utf8_decode_utf8(text);
    }
    if !crate::paths::is_absolute(path) {
        let slash = seq![crate::paths::SEPARATOR];
        crate::text::lemma_separator_decodes();
        let front = if config_dir.last() == crate::paths::SEPARATOR {
            config_dir
        } else {
            config_dir + slash
        };
        assert(whole =~= front + path);
        crate::text::lemma_utf8_concat(config_dir, slash);
        crate::text::lemma_utf8_concat(front, path);
        let shown = vstd::utf8::decode_utf8(front);
        assert(!shown.contains('$')) by {
            if shown.contains('$') {
                let i = choose|i: int| 0 <= i < shown.len() && shown[i] == '$';
                let dir = vstd::utf8::decode_utf8(config_dir);
                if i < dir.len() {
                    assert(dir[i] == shown[i]);
                }
            }
        }
        if valid {
            lemma_lacks_behind(shown, vstd::utf8::decode_utf8(path), pattern);
        }
    }
    lemma_filled_unchanged(whole, home);
}

fn fill(raw: &[u8], home_path: &[u8]) -> (path: Vec<u8>)
    ensures
        path@ == filled(raw@, home_path@),
        vstd::utf8::valid_utf8(home_path@) ==> crate::text::utf8_lossy(home_path@)
            == vstd::utf8::decode_utf8(home_path@),
{
    let home = text_lossy(home_path);
    let text = text_lossy(raw);
    proof {
        vstd::utf8::encode_utf8_valid_utf8(text@);
        vstd::utf8::encode_utf8_decode_utf8(text@);
        if vstd::utf8::valid_utf8(raw@) {
            vstd::utf8::decode_utf8_encode_utf8(raw@);
        }
    }
    if !same_bytes(text.as_str().as_bytes(), raw) {
        return copy_bytes(raw);
    }
    let whole = replace(text.as_str(), HOME_PLACEHOLDER, home.as_str());
    copy_bytes(whole.as_str().as_bytes())
}

/// Fill in the home placeholder of an output path, then anchor the path at
/// the settings' directory when still relative. Expanding the result once
/// more changes nothing, given plain directories.
pub fn expand_path(raw: &[u8], home_path: &[u8], config_dir: &[u8]) -> (path: Vec<u8>)
    ensures
        path@ == expanded(raw@, home_path@, config_dir@),
        vstd::utf8::valid_utf8(home_path@) ==> crate::text::utf8_lossy(home_path@)
            == vstd::utf8::decode_utf8(home_path@),
        plain_dir(home_path@) && plain_dir(config_dir@) ==> expanded(
            path@,
            home_path@,
            config_dir@,
        ) == path@,
{
    let path = fill(raw, home_path);
    proof {
        if plain_dir(home_path@) && plain_dir(config_dir@) {
            lemma_expanded_stays(raw@, home_path@, config_dir@);
        }
    }
    if absolute(path.as_slice()) {
        path
    } else {
        join(config_dir, path.as_slice())
    }
}

/// Parse an output path given through the environment: white space around it
/// is dropped.
pub fn parse_required_path(raw: &str) -> (path: Vec<u8>)
    ensures
        exists|text: Seq<char>| #[trigger]
            crate::text::is_trimmed(raw@, text) && path@ == vstd::utf8::encode_utf8(text),
{
    let text = trim(raw);
    copy_bytes(text.as_str().as_bytes())
}

impl TokioDiagnosticsConfig {
    /// Expand the home placeholder in the output paths, then anchor them at
    /// `config_dir` when still relative. Normalizing once more changes
    /// nothing, given plain directories.
    pub fn normalize_paths(&mut self, home_path: &[u8], config_dir: &[u8])
        ensures
            final(self).flame.output_path@ == expanded(
                old(self).flame.output_path@,
                home_path@,
                config_dir@,
            ),
            final(self).runtime_metrics.output_path@ == expanded(
                old(self).runtime_metrics.output_path@,
                home_path@,
                config_dir@,
            ),
            final(self).flame.enabled == old(self).flame.enabled,
            final(self).runtime_metrics.enabled == old(self).runtime_metrics.enabled,
            final(self).runtime_metrics.interval_secs == old(self).runtime_metrics.interval_secs,
            final(self).console == old(self).console,
            plain_dir(home_path@) && plain_dir(config_dir@) ==> {
                &&& expanded(final(self).flame.output_path@, home_path@, config_dir@)
                    == final(self).flame.output_path@
                &&& expanded(final(self).runtime_metrics.output_path@, home_path@, config_dir@)
                    == final(self).runtime_metrics.output_path@
            },
    {
        self.flame.output_path = expand_path(
            self.flame.output_path.as_slice(),
            home_path,
            config_dir,
        );
        self.runtime_metrics.output_path = expand_path(
            self.runtime_metrics.output_path.as_slice(),
            home_path,
            config_dir,
        );
    }
}

/// Guards the non-layer pieces of the diagnostics stack: the task inspection
/// server `C` and the flame graph flusher `F`.
///
/// Dropping it stops flushing flame graph data.
#[derive(Debug)]
pub struct DiagnosticsGuard<C, F> {
    pub console_server: Option<C>,
    pub flame_guard: Option<F>,
}

impl<C, F> Default for DiagnosticsGuard<C, F> {
    fn default() -> (guard: Self)
        ensures
            guard.console_server is None,
            guard.flame_guard is None,
    {
        DiagnosticsGuard { console_server: None, flame_guard: None }
    }
}

impl<C, F> DiagnosticsGuard<C, F> {
    /// Take the task inspection server, if it is enabled.
    pub fn take_console_server(&mut self) -> (server: Option<C>)
        ensures
            server == old(self).console_server,
            final(self).console_server is None,
            final(self).flame_guard == old(self).flame_guard,
    {
        self.console_server.take()
    }
}

/// What is said when the flame graph output cannot be created.
pub open spec fn flame_warning(config: TokioDiagnosticsConfig, detail: Seq<char>) -> Seq<char> {
    "failed to create tracing flame output "@ + crate::text::utf8_lossy(config.flame.output_path@)
        + ": "@ + detail
}

/// What is said when the task inspection cannot be bound.
pub open spec fn console_warning(config: TokioDiagnosticsConfig, detail: Seq<char>) -> Seq<char> {
    "invalid tokio_diagnostics.console.bind_addr "@ + crate::text::debug_text(
        config.console.bind_addr@,
    ) + ": "@ + detail
}

/// What a piece of the diagnostics contributes if it could be made.
pub open spec fn made<A, B>(outcome: Option<Result<(A, B), String>>) -> Option<(A, B)> {
    match outcome {
        Some(Ok(made)) => Some(made),
        _ => None,
    }
}

/// The one value, or none.
pub open spec fn one_or_none<A>(value: Option<A>) -> Seq<A> {
    match value {
        Some(value) => seq![value],
        None => Seq::empty(),
    }
}

/// What is said of the pieces that could not be made.
pub open spec fn layer_warnings<L, C, F>(
    config: TokioDiagnosticsConfig,
    flame: Option<Result<(L, F), String>>,
    console: Option<Result<(L, C), String>>,
) -> Seq<Seq<char>> {
    one_or_none(
        match flame {
            Some(Err(detail)) => Some(flame_warning(config, detail@)),
            _ => None,
        },
    ) + one_or_none(
        match console {
            Some(Err(detail)) => Some(console_warning(config, detail@)),
            _ => None,
        },
    )
}

/// Which diagnostics layers are to be made.
#[derive(Debug)]
pub struct LayerPlan {
    /// Output path of the flame graph layer.
    pub flame: Option<Vec<u8>>,
    /// Address that the task inspection is bound to.
    pub console: Option<String>,
}

/// The layers that the settings select.
pub fn plan_layers(config: &TokioDiagnosticsConfig) -> (plan: LayerPlan)
    ensures
        match plan.flame {
            Some(path) => config.flame.enabled && path@ == config.flame.output_path@,
            None => !config.flame.enabled,
        },
        match plan.console {
            Some(addr) => config.console.enabled && addr@ == config.console.bind_addr@,
            None => !config.console.enabled,
        },
{
    LayerPlan {
        flame: if config.flame.enabled {
            Some(copy_bytes(config.flame.output_path.as_slice()))
        } else {
            None
        },
        console: if config.console.enabled {
            Some(config.console.bind_addr.clone())
        } else {
            None
        },
    }
}

/// What making a layer came to, if it is enabled at all.
pub open spec fn selected<A>(enabled: bool, outcome: Option<A>) -> Option<A> {
    if enabled {
        outcome
    } else {
        None
    }
}

/// Gather the diagnostics layers that could be made, the flame graph's before
/// the task inspection's, and the guard owning their non-layer resources.
/// `flame` and `console` are what making each of them came to; one that is
/// not enabled is left out. A layer that could not be made is skipped with a
/// warning.
pub fn layers<L, C, F>(
    config: &TokioDiagnosticsConfig,
    flame: Option<Result<(L, F), String>>,
    console: Option<Result<(L, C), String>>,
) -> (gathered: (Vec<L>, DiagnosticsGuard<C, F>, Vec<String>))
    ensures
        ({
            let flame = selected(config.flame.enabled, flame);
            let console = selected(config.console.enabled, console);
            &&& gathered.0@ == one_or_none(
                match made(flame) {
                    Some((layer, _)) => Some(layer),
                    None => None,
                },
            ) + one_or_none(
                match made(console) {
                    Some((layer, _)) => Some(layer),
                    None => None,
                },
            )
            &&& gathered.1.flame_guard == (match made(flame) {
                Some((_, guard)) => Some(guard),
                None => None,
            })
            &&& gathered.1.console_server == (match made(console) {
                Some((_, server)) => Some(server),
                None => None,
            })
            &&& gathered.2@.map_values(|warning: String| warning@) == layer_warnings(
                *config,
                flame,
                console,
            )
        }),
{
    let flame = if config.flame.enabled {
        flame
    } else {
        None
    };
    let console = if config.console.enabled {
        console
    } else {
        None
    };
    let ghost expected = layer_warnings(*config, flame, console);
    let mut layers: Vec<L> = Vec::new();
    let mut guard: DiagnosticsGuard<C, F> = DiagnosticsGuard {
        console_server: None,
        flame_guard: None,
    };
    let mut warnings: Vec<String> = Vec::new();
    match flame {
        Some(Ok((layer, flusher))) => {
            guard.flame_guard = Some(flusher);
            layers.push(layer);
        },
        Some(Err(detail)) => {
            let mut text = with_path(
                "failed to create tracing flame output ",
                config.flame.output_path.as_slice(),
            );
            text.append(": ");
            text.append(detail.as_str());
            warnings.push(text);
        },
        None => {},
    }
    match console {
        Some(Ok((layer, server))) => {
            guard.console_server = Some(server);
            layers.push(layer);
        },
        Some(Err(detail)) => {
            let mut text = "invalid tokio_diagnostics.console.bind_addr ".to_string();
            text.append(debug_quoted(config.console.bind_addr.as_str()).as_str());
            text.append(": ");
            text.append(detail.as_str());
            warnings.push(text);
        },
        None => {},
    }
    assert(warnings@.map_values(|warning: String| warning@) =~= expected);
    (layers, guard, warnings)
}

/// What activating the diagnostics does.
#[derive(Debug)]
pub struct StartPlan<C> {
    /// The task inspection server to drive.
    pub console_server: Option<C>,
    /// Interval in seconds and output path of the metrics reporter to run.
    pub metrics: Option<(u64, Vec<u8>)>,
}

/// Activate the selected diagnostics: the task inspection server if there is
/// one, and the metrics reporter if enabled, at most once a second. What is
/// left of the guard is kept for the runtime's lifetime, so that flame graph
/// data keeps flushing.
pub fn start<C, F>(
    config: &TokioDiagnosticsConfig,
    guard: &mut DiagnosticsGuard<C, F>,
) -> (plan: StartPlan<C>)
    ensures
        plan.console_server == old(guard).console_server,
        match plan.metrics {
            Some((interval, path)) => {
                &&& config.runtime_metrics.enabled
                &&& interval == crate::config::at_least(
                    config.runtime_metrics.interval_secs as int,
                    1,
                )
                &&& path@ == config.runtime_metrics.output_path@
            },
            None => !config.runtime_metrics.enabled,
        },
        final(guard).console_server is None,
        final(guard).flame_guard == old(guard).flame_guard,
{
    let console_server = guard.take_console_server();
    let metrics = if config.runtime_metrics.enabled {
        let interval: u64 = if config.runtime_metrics.interval_secs < 1 {
            1
        } else {
            config.runtime_metrics.interval_secs
        };
        Some((interval, copy_bytes(config.runtime_metrics.output_path.as_slice())))
    } else {
        None
    };
    StartPlan { console_server, metrics }
}

/// Runtime metrics of one interval.
///
/// Reading guide when hunting serialization under load:
/// - `worker_max_mean_poll_us` high while `busy_ratio` is low: a blocking
///   call is stalling one runtime worker.
/// - `global_queue_depth` or `max_local_queue_depth` deep while `busy_ratio`
///   is low: tasks pile up behind a serialization point rather than behind
///   the scheduler.
/// - `blocking_queue_depth` growing: the pool for blocking work is saturated.
#[derive(Debug)]
pub struct RuntimeSample {
    pub workers: u64,
    pub live_tasks: u64,
    /// Share of the interval that the workers were busy, rendered with three
    /// decimals.
    pub busy_ratio: String,
    pub mean_poll_us: u64,
    pub worker_max_mean_poll_us: u64,
    pub total_polls: u64,
    pub global_queue_depth: u64,
    pub max_local_queue_depth: u64,
    pub blocking_queue_depth: u64,
    pub overflow_count: u64,
    pub budget_forced_yields: u64,
    pub io_driver_ready: u64,
}

/// One `name=value` field of a metrics line.
pub open spec fn metric(name: Seq<char>, value: u64) -> Seq<char> {
    name + crate::text::decimal(value as nat)
}

/// The summary line of one interval.
pub open spec fn summary_line(timestamp: Seq<char>, sample: RuntimeSample) -> Seq<char> {
    timestamp + metric(" workers="@, sample.workers) + metric(" live_tasks="@, sample.live_tasks)
        + " busy_ratio="@ + sample.busy_ratio@ + metric(" mean_poll_us="@, sample.mean_poll_us)
        + metric(" worker_max_mean_poll_us="@, sample.worker_max_mean_poll_us) + metric(
        " total_polls="@,
        sample.total_polls,
    ) + metric(" global_queue_depth="@, sample.global_queue_depth) + metric(
        " max_local_queue_depth="@,
        sample.max_local_queue_depth,
    ) + metric(" blocking_queue_depth="@, sample.blocking_queue_depth) + metric(
        " overflow_count="@,
        sample.overflow_count,
    ) + metric(" budget_forced_yields="@, sample.budget_forced_yields) + metric(
        " io_driver_ready="@,
        sample.io_driver_ready,
    ) + "\n"@
}

fn push_metric(line: &mut String, name: &str, value: u64)
    ensures
        final(line)@ == old(line)@ + metric(name@, value),
{
    let ghost before = line@;
    line.append(name);
    push_decimal(line, value);
    assert(line@ =~= before + metric(name@, value));
}

/// What formatting a point in time, given in nanoseconds since the Unix epoch,
/// as an RFC 3339 text in UTC gives; `None` for one that has no such text.
pub uninterp spec fn rfc3339_text(unix_nanos: int) -> Option<Seq<char>>;

/// An optional text, as the model sees it.
pub open spec fn optional_text(text: Option<String>) -> Option<Seq<char>> {
    match text {
        Some(text) => Some(text@),
        None => None,
    }
}

/// Calls `time::OffsetDateTime::format` with the well-known format `Rfc3339`
/// on the point in time that `from_unix_timestamp_nanos` gives. Both depend on
/// nothing but the number; a number out of range and one whose year has no
/// four digits have no text.
#[verifier::external_body]
fn rfc3339(unix_nanos: i128) -> (text: Option<String>)
    ensures
        optional_text(text) == rfc3339_text(unix_nanos as int),
{
    match time::OffsetDateTime::from_unix_timestamp_nanos(unix_nanos) {
        Ok(point) => point.format(&time::format_description::well_known::Rfc3339).ok(),
        Err(_) => None,
    }
}

/// The timestamp of a metrics line: empty for a point in time without a text.
pub open spec fn timestamp_text(unix_nanos: int) -> Seq<char> {
    match rfc3339_text(unix_nanos) {
        Some(text) => text,
        None => Seq::empty(),
    }
}

/// The summary line of the interval that ends at a point in time, given in
/// nanoseconds since the Unix epoch.
pub fn stamped_metrics_line(unix_nanos: i128, sample: &RuntimeSample) -> (line: String)
    ensures
        line@ == summary_line(timestamp_text(unix_nanos as int), *sample),
{
    match rfc3339(unix_nanos) {
        Some(text) => metrics_line(text.as_str(), sample),
        None => {
            let empty = String::new();
            assert(empty@ =~= Seq::empty());
            metrics_line(empty.as_str(), sample)
        },
    }
}

/// The summary line of one interval.
pub fn metrics_line(timestamp: &str, sample: &RuntimeSample) -> (line: String)
    ensures
        line@ == summary_line(timestamp@, *sample),
{
    let mut line = timestamp.to_string();
    push_metric(&mut line, " workers=", sample.workers);
    push_metric(&mut line, " live_tasks=", sample.live_tasks);
    line.append(" busy_ratio=");
    line.append(sample.busy_ratio.as_str());
    push_metric(&mut line, " mean_poll_us=", sample.mean_poll_us);
    push_metric(&mut line, " worker_max_mean_poll_us=", sample.worker_max_mean_poll_us);
    push_metric(&mut line, " total_polls=", sample.total_polls);
    push_metric(&mut line, " global_queue_depth=", sample.global_queue_depth);
    push_metric(&mut line, " max_local_queue_depth=", sample.max_local_queue_depth);
    push_metric(&mut line, " blocking_queue_depth=", sample.blocking_queue_depth);
    push_metric(&mut line, " overflow_count=", sample.overflow_count);
    push_metric(&mut line, " budget_forced_yields=", sample.budget_forced_yields);
    push_metric(&mut line, " io_driver_ready=", sample.io_driver_ready);
    line.append("\n");
    line
}

/// A text without the pattern is left as it is.
pub proof fn law_replacing_nothing_changes_nothing(
    text: Seq<char>,
    pattern: Seq<char>,
    with: Seq<char>,
)
    requires
        lacks(text, pattern),
    ensures
        replaced(text, pattern, with) == text,
    decreases text.len(),
{
    if text.len() > 0 && pattern.len() > 0 {
        assert(text.skip(0) =~= text);
        assert forall|i: int| 0 <= i <= text.skip(1).len() implies !pattern.is_prefix_of(
            #[trigger] text.skip(1).skip(i),
        ) by {
            assert(text.skip(1).skip(i) =~= text.skip(i + 1));
        }
        law_replacing_nothing_changes_nothing(text.skip(1), pattern, with);
        assert(seq![text[0]] + text.skip(1) =~= text);
    }
}

/// With an absolute settings directory every output path ends up absolute; an
/// absolute path without the placeholder is kept as it is.
pub proof fn law_normalized_paths_are_absolute(raw: Seq<u8>, home: Seq<u8>, config_dir: Seq<u8>)
    requires
        crate::paths::is_absolute(config_dir),
    ensures
        crate::paths::is_absolute(expanded(raw, home, config_dir)),
        crate::paths::is_absolute(raw) && (vstd::utf8::valid_utf8(raw) ==> lacks(
            vstd::utf8::decode_utf8(raw),
            HOME_PLACEHOLDER@,
        )) ==> expanded(raw, home, config_dir) == raw,
{
    crate::paths::law_joined_paths_stay_below_base(config_dir, filled(raw, home));
    if vstd::utf8::valid_utf8(raw) ==> lacks(vstd::utf8::decode_utf8(raw), HOME_PLACEHOLDER@) {
        lemma_filled_unchanged(raw, home);
    }
}

proof fn lemma_first_replacement(
    front: Seq<char>,
    back: Seq<char>,
    pattern: Seq<char>,
    with: Seq<char>,
)
    requires
        pattern.len() > 0,
        forall|i: int|
            0 <= i < front.len() ==> !pattern.is_prefix_of(
                #[trigger] (front + pattern + back).skip(i),
            ),
    ensures
        replaced(front + pattern + back, pattern, with) == front + with + replaced(
            back,
            pattern,
            with,
        ),
    decreases front.len(),
{
    let text = front + pattern + back;
    if front.len() == 0 {
        assert(text.take(pattern.len() as int) =~= pattern);
        assert(text.skip(pattern.len() as int) =~= back);
        assert(front + with =~= with);
    } else {
        let rest = front.skip(1);
        let tail = rest + pattern + back;
        assert(text.skip(0) =~= text);
        assert(!pattern.is_prefix_of(text.skip(0)));
        assert(text.skip(1) =~= tail);
        assert forall|i: int| 0 <= i < rest.len() implies !pattern.is_prefix_of(
            #[trigger] tail.skip(i),
        ) by {
            assert(tail.skip(i) =~= text.skip(i + 1));
        }
        lemma_first_replacement(rest, back, pattern, with);
        assert(seq![text[0]] + (rest + with + replaced(back, pattern, with)) =~= front + with
            + replaced(back, pattern, with));
    }
}

/// A text in which the pattern does not occur is left as it is. Otherwise what
/// stands before the first occurrence stays, the replacement follows, and what
/// stands behind it is replaced by itself.
pub proof fn law_replacements_go_from_left_to_right(
    text: &str,
    pattern: &str,
    with: &str,
    result: String,
    front: Seq<char>,
    back: &str,
    rest: String,
)
    requires
        pattern@.len() > 0,
        call_ensures(replace, (text, pattern, with), result),
        call_ensures(replace, (back, pattern, with), rest),
    ensures
        (forall|i: int|
            0 <= i <= text@.len() ==> !pattern@.is_prefix_of(#[trigger] text@.skip(i)))
            ==> result@ == text@,
        text@ == front + pattern@ + back@ && (forall|i: int|
            0 <= i < front.len() ==> !pattern@.is_prefix_of(#[trigger] text@.skip(i)))
            ==> result@ == front + with@ + rest@,
{
    if lacks(text@, pattern@) {
        law_replacing_nothing_changes_nothing(text@, pattern@, with@);
    }
    if text@ == front + pattern@ + back@ && (forall|i: int|
        0 <= i < front.len() ==> !pattern@.is_prefix_of(#[trigger] text@.skip(i))) {
        lemma_first_replacement(front, back@, pattern@, with@);
    }
}

/// An output path that begins with the placeholder, and holds no other, is
/// that path below the home directory. One without the placeholder is kept if
/// it is absolute, and otherwise seen from the settings' directory. An expanded
/// path is expanded to itself.
pub proof fn law_output_paths_expand(
    raw: &[u8],
    home_path: &[u8],
    config_dir: &[u8],
    path: Vec<u8>,
    rest: Seq<char>,
    whole: Vec<u8>,
    again: &[u8],
    twice: Vec<u8>,
)
    requires
        call_ensures(expand_path, (raw, home_path, config_dir), path),
        call_ensures(join, (config_dir, raw), whole),
        again@ == path@,
        call_ensures(expand_path, (again, home_path, config_dir), twice),
    ensures
        vstd::utf8::valid_utf8(home_path@) && home_path@.len() > 0 && home_path@[0] == 0x2f
            && raw@ == vstd::utf8::encode_utf8("$AENV_HOME"@ + rest) && lacks(
            rest,
            "$AENV_HOME"@,
        ) ==> path@ == home_path@ + vstd::utf8::encode_utf8(rest),
        (vstd::utf8::valid_utf8(raw@) ==> lacks(vstd::utf8::decode_utf8(raw@), "$AENV_HOME"@))
            ==> {
            &&& raw@.len() > 0 && raw@[0] == 0x2f ==> path@ == raw@
            &&& !(raw@.len() > 0 && raw@[0] == 0x2f) ==> path@ == whole@
        },
        plain_dir(home_path@) && plain_dir(config_dir@) ==> twice@ == path@,
{
    let home = home_path@;
    if vstd::utf8::valid_utf8(home) && crate::paths::is_absolute(home) && raw@
        == vstd::utf8::encode_utf8("$AENV_HOME"@ + rest) && lacks(rest, "$AENV_HOME"@) {
        let text = "$AENV_HOME"@ + rest;
        let shown = vstd::utf8::decode_utf8(home);
        lemma_placeholder();
        vstd::utf8::encode_utf8_valid_utf8(text);
        vstd::utf8::encode_utf8_decode_utf8(text);
        assert(Seq::<char>::empty() + "$AENV_HOME"@ =~= "$AENV_HOME"@);
        lemma_first_replacement(Seq::empty(), rest, "$AENV_HOME"@, shown);
        law_replacing_nothing_changes_nothing(rest, "$AENV_HOME"@, shown);
        assert(Seq::<char>::empty() + shown =~= shown);
        let tail = vstd::utf8::encode_utf8(rest);
        vstd::utf8::encode_utf8_valid_utf8(rest);
        vstd::utf8::encode_utf8_decode_utf8(rest);
        crate::text::lemma_utf8_concat(home, tail);
        vstd::utf8::decode_utf8_encode_utf8(home + tail);
        assert(filled(raw@, home) == home + tail);
        assert((home + tail)[0] == home[0]);
    }
    if vstd::utf8::valid_utf8(raw@) ==> lacks(vstd::utf8::decode_utf8(raw@), "$AENV_HOME"@) {
        lemma_filled_unchanged(raw@, home);
    }
}

/// Both output paths are expanded, each by itself, and nothing else changes.
pub proof fn law_normalizing_expands_both_paths(
    config: &mut TokioDiagnosticsConfig,
    home_path: &[u8],
    config_dir: &[u8],
    done: (),
    flame: &[u8],
    flame_path: Vec<u8>,
    metrics: &[u8],
    metrics_path: Vec<u8>,
)
    requires
        call_ensures(
            TokioDiagnosticsConfig::normalize_paths,
            (config, home_path, config_dir),
            done,
        ),
        flame@ == old(config).flame.output_path@,
        call_ensures(expand_path, (flame, home_path, config_dir), flame_path),
        metrics@ == old(config).runtime_metrics.output_path@,
        call_ensures(expand_path, (metrics, home_path, config_dir), metrics_path),
    ensures
        final(config).flame.output_path@ == flame_path@,
        final(config).runtime_metrics.output_path@ == metrics_path@,
        final(config).flame.enabled == old(config).flame.enabled,
        final(config).runtime_metrics.enabled == old(config).runtime_metrics.enabled,
        final(config).runtime_metrics.interval_secs == old(config).runtime_metrics.interval_secs,
        final(config).console == old(config).console,
{
}

/// An output path given as text is that text without the white space around
/// it.
pub proof fn law_given_paths_are_trimmed(raw: &str, path: Vec<u8>, part: String)
    requires
        call_ensures(parse_required_path, (raw,), path),
        call_ensures(trim, (raw,), part),
    ensures
        path@ == vstd::utf8::encode_utf8(part@),
{
    let text = choose|text: Seq<char>| #[trigger]
        crate::text::is_trimmed(raw@, text) && path@ == vstd::utf8::encode_utf8(text);
    crate::text::law_trimmed_form_is_unique(raw@, text, part@);
}

/// Exactly the enabled diagnostics are planned, with their settings, and of
/// what was made exactly what is enabled is used: the flame graph's layer
/// first. Each enabled one that could not be made is worth a warning that ends
/// with the reason, and contributes nothing.
pub proof fn law_enabled_diagnostics_are_gathered<L, C, F>(
    config: TokioDiagnosticsConfig,
    plan: LayerPlan,
    flame: Option<Result<(L, F), String>>,
    console: Option<Result<(L, C), String>>,
    gathered: (Vec<L>, DiagnosticsGuard<C, F>, Vec<String>),
)
    requires
        call_ensures(plan_layers, (&config,), plan),
        call_ensures(layers::<L, C, F>, (&config, flame, console), gathered),
    ensures
        plan.flame is Some <==> config.flame.enabled,
        plan.flame matches Some(path) ==> path@ == config.flame.output_path@,
        plan.console is Some <==> config.console.enabled,
        plan.console matches Some(addr) ==> addr@ == config.console.bind_addr@,
        ({
            let flame_made = config.flame.enabled && (flame matches Some(Ok(_)));
            let console_made = config.console.enabled && (console matches Some(Ok(_)));
            let flame_lost = config.flame.enabled && (flame matches Some(Err(_)));
            let console_lost = config.console.enabled && (console matches Some(Err(_)));
            &&& gathered.0@.len() == (if flame_made {
                1int
            } else {
                0
            }) + (if console_made {
                1int
            } else {
                0
            })
            &&& flame_made ==> gathered.0@[0] == flame->0->Ok_0.0 && gathered.1.flame_guard
                == Some(flame->0->Ok_0.1)
            &&& !flame_made ==> gathered.1.flame_guard is None
            &&& console_made ==> gathered.0@.last() == console->0->Ok_0.0
                && gathered.1.console_server == Some(console->0->Ok_0.1)
            &&& !console_made ==> gathered.1.console_server is None
            &&& gathered.2@.len() == (if flame_lost {
                1int
            } else {
                0
            }) + (if console_lost {
                1int
            } else {
                0
            })
            &&& flame_lost ==> crate::text::ends_with(gathered.2@[0]@, flame->0->Err_0@)
            &&& console_lost ==> crate::text::ends_with(
                gathered.2@.last()@,
                console->0->Err_0@,
            )
        }),
{
    let texts = gathered.2@.map_values(|warning: String| warning@);
    assert(texts.len() == gathered.2@.len());
    assert forall|i: int| 0 <= i < texts.len() implies #[trigger] texts[i]
        == gathered.2@[i]@ by {}
    if let Some(Err(detail)) = flame {
        crate::text::lemma_ends_with(
            "failed to create tracing flame output "@ + crate::text::utf8_lossy(
                config.flame.output_path@,
            ) + ": "@,
            detail@,
        );
        if config.flame.enabled {
            assert(texts[0] == flame_warning(config, detail@));
        }
    }
    if let Some(Err(detail)) = console {
        crate::text::lemma_ends_with(
            "invalid tokio_diagnostics.console.bind_addr "@ + crate::text::debug_text(
                config.console.bind_addr@,
            ) + ": "@,
            detail@,
        );
        if config.console.enabled {
            assert(texts[texts.len() - 1] == console_warning(config, detail@));
        }
    }
}

/// Starting hands out the task inspection server once, keeps the flame graph
/// flushing, and reports metrics exactly if that is enabled: to the configured
/// path, as often as configured, but at most once a second.
pub proof fn law_starting_diagnostics<C, F>(
    config: TokioDiagnosticsConfig,
    guard: &mut DiagnosticsGuard<C, F>,
    plan: StartPlan<C>,
    again: &mut DiagnosticsGuard<C, F>,
    second: StartPlan<C>,
)
    requires
        call_ensures(start::<C, F>, (&config, guard), plan),
        *old(again) == *final(guard),
        call_ensures(start::<C, F>, (&config, again), second),
    ensures
        plan.console_server == old(guard).console_server,
        second.console_server is None,
        final(again).flame_guard == old(guard).flame_guard,
        plan.metrics is Some <==> config.runtime_metrics.enabled,
        plan.metrics matches Some((interval, path)) ==> {
            &&& path@ == config.runtime_metrics.output_path@
            &&& interval >= 1
            &&& config.runtime_metrics.interval_secs >= 1 ==> interval
                == config.runtime_metrics.interval_secs
            &&& config.runtime_metrics.interval_secs == 0 ==> interval == 1
        },
{
}

/// Texts, one after the other.
pub open spec fn one_after_the_other(texts: Seq<Seq<char>>) -> Seq<char>
    decreases texts.len(),
{
    if texts.len() == 0 {
        Seq::empty()
    } else {
        one_after_the_other(texts.drop_last()) + texts.last()
    }
}

proof fn lemma_one_more(texts: Seq<Seq<char>>, more: Seq<char>)
    ensures
        one_after_the_other(texts.push(more)) == one_after_the_other(texts) + more,
{
    assert(texts.push(more).drop_last() =~= texts);
}

proof fn lemma_split_at(texts: Seq<Seq<char>>, at: int)
    requires
        0 <= at < texts.len(),
    ensures
        one_after_the_other(texts) == one_after_the_other(texts.take(at)) + texts[at]
            + one_after_the_other(texts.skip(at + 1)),
    decreases texts.len(),
{
    let front = texts.drop_last();
    if at == texts.len() - 1 {
        assert(texts.take(at) =~= front);
        assert(texts.skip(at + 1) =~= Seq::empty());
        assert(one_after_the_other(texts.skip(at + 1)) =~= Seq::empty());
        assert(one_after_the_other(texts) =~= one_after_the_other(texts.take(at)) + texts[at]
            + one_after_the_other(texts.skip(at + 1)));
    } else {
        lemma_split_at(front, at);
        assert(front.take(at) =~= texts.take(at));
        assert(texts.skip(at + 1).drop_last() =~= front.skip(at + 1));
        assert(one_after_the_other(texts) =~= one_after_the_other(texts.take(at)) + texts[at]
            + one_after_the_other(texts.skip(at + 1)));
    }
}

/// Whether a line holds a label with a text behind it, up to the next field or
/// the end of the line.
pub open spec fn is_labelled(
    line: Seq<char>,
    front: Seq<char>,
    label: Seq<char>,
    value: Seq<char>,
    back: Seq<char>,
) -> bool {
    &&& line == front + label + value + back
    &&& back.len() > 0
    &&& back[0] == ' ' || back[0] == '\n'
}

/// Whether a line shows a number under a label.
pub open spec fn shows(line: Seq<char>, label: Seq<char>, value: u64) -> bool {
    exists|front: Seq<char>, numeral: Seq<char>, back: Seq<char>| #[trigger]
        is_labelled(line, front, label, numeral, back) && crate::text::is_numeral(numeral, 10)
            && crate::text::read_number(numeral, 10) == value
}

proof fn lemma_labelled(
    texts: Seq<Seq<char>>,
    at: int,
    label: Seq<char>,
    value: Seq<char>,
) -> (parts: (Seq<char>, Seq<char>))
    requires
        0 <= at,
        at + 1 < texts.len(),
        texts[at] == label + value,
        texts[at + 1].len() > 0,
        texts[at + 1][0] == ' ' || texts[at + 1][0] == '\n',
    ensures
        is_labelled(one_after_the_other(texts), parts.0, label, value, parts.1),
{
    lemma_split_at(texts, at);
    let rest = texts.skip(at + 1);
    lemma_split_at(rest, 0);
    assert(rest.take(0) =~= Seq::empty());
    let front = one_after_the_other(texts.take(at));
    let back = one_after_the_other(rest);
    assert(one_after_the_other(rest.take(0)) =~= Seq::empty());
    assert(back =~= rest[0] + one_after_the_other(rest.skip(1)));
    assert(back[0] == rest[0][0]);
    assert(front + texts[at] + back =~= front + label + value + back);
    (front, back)
}

proof fn lemma_shows(texts: Seq<Seq<char>>, at: int, label: Seq<char>, value: u64)
    requires
        0 <= at,
        at + 1 < texts.len(),
        texts[at] == metric(label, value),
        texts[at + 1].len() > 0,
        texts[at + 1][0] == ' ' || texts[at + 1][0] == '\n',
    ensures
        shows(one_after_the_other(texts), label, value),
{
    let numeral = crate::text::decimal(value as nat);
    crate::text::lemma_digits(value as nat, 10);
    let (front, back) = lemma_labelled(texts, at, label, numeral);
    assert(is_labelled(one_after_the_other(texts), front, label, numeral, back));
}

proof fn lemma_summary(timestamp: Seq<char>, sample: RuntimeSample) -> (texts: Seq<Seq<char>>)
    ensures
        texts.len() == 14,
        one_after_the_other(texts) == summary_line(timestamp, sample),
        texts[0] == timestamp,
        texts[1] == metric(" workers="@, sample.workers),
        texts[2] == metric(" live_tasks="@, sample.live_tasks),
        texts[3] == " busy_ratio="@ + sample.busy_ratio@,
        texts[4] == metric(" mean_poll_us="@, sample.mean_poll_us),
        texts[5] == metric(" worker_max_mean_poll_us="@, sample.worker_max_mean_poll_us),
        texts[6] == metric(" total_polls="@, sample.total_polls),
        texts[7] == metric(" global_queue_depth="@, sample.global_queue_depth),
        texts[8] == metric(" max_local_queue_depth="@, sample.max_local_queue_depth),
        texts[9] == metric(" blocking_queue_depth="@, sample.blocking_queue_depth),
        texts[10] == metric(" overflow_count="@, sample.overflow_count),
        texts[11] == metric(" budget_forced_yields="@, sample.budget_forced_yields),
        texts[12] == metric(" io_driver_ready="@, sample.io_driver_ready),
        texts[13] == "\n"@,
{
    let none = Seq::<Seq<char>>::empty();
    let a = none.push(timestamp);
    lemma_one_more(none, timestamp);
    assert(one_after_the_other(none) =~= Seq::empty());
    assert(one_after_the_other(a) =~= timestamp);
    let b = a.push(metric(" workers="@, sample.workers));
    lemma_one_more(a, metric(" workers="@, sample.workers));
    let c = b.push(metric(" live_tasks="@, sample.live_tasks));
    lemma_one_more(b, metric(" live_tasks="@, sample.live_tasks));
    let d = c.push(" busy_ratio="@ + sample.busy_ratio@);
    lemma_one_more(c, " busy_ratio="@ + sample.busy_ratio@);
    assert(one_after_the_other(d) =~= one_after_the_other(c) + " busy_ratio="@
        + sample.busy_ratio@);
    let e = d.push(metric(" mean_poll_us="@, sample.mean_poll_us));
    lemma_one_more(d, metric(" mean_poll_us="@, sample.mean_poll_us));
    let f = e.push(metric(" worker_max_mean_poll_us="@, sample.worker_max_mean_poll_us));
    lemma_one_more(e, metric(" worker_max_mean_poll_us="@, sample.worker_max_mean_poll_us));
    let g = f.push(metric(" total_polls="@, sample.total_polls));
    lemma_one_more(f, metric(" total_polls="@, sample.total_polls));
    let h = g.push(metric(" global_queue_depth="@, sample.global_queue_depth));
    lemma_one_more(g, metric(" global_queue_depth="@, sample.global_queue_depth));
    let i = h.push(metric(" max_local_queue_depth="@, sample.max_local_queue_depth));
    lemma_one_more(h, metric(" max_local_queue_depth="@, sample.max_local_queue_depth));
    let j = i.push(metric(" blocking_queue_depth="@, sample.blocking_queue_depth));
    lemma_one_more(i, metric(" blocking_queue_depth="@, sample.blocking_queue_depth));
    let k = j.push(metric(" overflow_count="@, sample.overflow_count));
    lemma_one_more(j, metric(" overflow_count="@, sample.overflow_count));
    let l = k.push(metric(" budget_forced_yields="@, sample.budget_forced_yields));
    lemma_one_more(k, metric(" budget_forced_yields="@, sample.budget_forced_yields));
    let m = l.push(metric(" io_driver_ready="@, sample.io_driver_ready));
    lemma_one_more(l, metric(" io_driver_ready="@, sample.io_driver_ready));
    lemma_one_more(m, "\n"@);
    m.push("\n"@)
}

/// A summary line begins with its timestamp, shows every number of the sample
/// under its own label, and the busy ratio as it was rendered.
pub proof fn law_summary_lines_show_the_sample(
    timestamp: &str,
    sample: RuntimeSample,
    line: String,
)
    requires
        call_ensures(metrics_line, (timestamp, &sample), line),
    ensures
        crate::text::begins_with(line@, timestamp@),
        line@.last() == '\n',
        shows(line@, " workers="@, sample.workers),
        shows(line@, " live_tasks="@, sample.live_tasks),
        exists|front: Seq<char>, back: Seq<char>| #[trigger]
            is_labelled(line@, front, " busy_ratio="@, sample.busy_ratio@, back),
        shows(line@, " mean_poll_us="@, sample.mean_poll_us),
        shows(line@, " worker_max_mean_poll_us="@, sample.worker_max_mean_poll_us),
        shows(line@, " total_polls="@, sample.total_polls),
        shows(line@, " global_queue_depth="@, sample.global_queue_depth),
        shows(line@, " max_local_queue_depth="@, sample.max_local_queue_depth),
        shows(line@, " blocking_queue_depth="@, sample.blocking_queue_depth),
        shows(line@, " overflow_count="@, sample.overflow_count),
        shows(line@, " budget_forced_yields="@, sample.budget_forced_yields),
        shows(line@, " io_driver_ready="@, sample.io_driver_ready),
{
    reveal_strlit(" live_tasks=");
    reveal_strlit(" busy_ratio=");
    reveal_strlit(" mean_poll_us=");
    reveal_strlit(" worker_max_mean_poll_us=");
    reveal_strlit(" total_polls=");
    reveal_strlit(" global_queue_depth=");
    reveal_strlit(" max_local_queue_depth=");
    reveal_strlit(" blocking_queue_depth=");
    reveal_strlit(" overflow_count=");
    reveal_strlit(" budget_forced_yields=");
    reveal_strlit(" io_driver_ready=");
    reveal_strlit("\n");
    let texts = lemma_summary(timestamp@, sample);
    lemma_split_at(texts, 0);
    assert(texts.take(0) =~= Seq::empty());
    assert(one_after_the_other(texts.take(0)) =~= Seq::empty());
    assert(line@ =~= timestamp@ + one_after_the_other(texts.skip(1)));
    crate::text::lemma_ends_with(timestamp@, one_after_the_other(texts.skip(1)));
    assert(line@.last() == texts[13][0]);
    lemma_shows(texts, 1, " workers="@, sample.workers);
    lemma_shows(texts, 2, " live_tasks="@, sample.live_tasks);
    let (front, back) = lemma_labelled(texts, 3, " busy_ratio="@, sample.busy_ratio@);
    assert(is_labelled(line@, front, " busy_ratio="@, sample.busy_ratio@, back));
    lemma_shows(texts, 4, " mean_poll_us="@, sample.mean_poll_us);
    lemma_shows(texts, 5, " worker_max_mean_poll_us="@, sample.worker_max_mean_poll_us);
    lemma_shows(texts, 6, " total_polls="@, sample.total_polls);
    lemma_shows(texts, 7, " global_queue_depth="@, sample.global_queue_depth);
    lemma_shows(texts, 8, " max_local_queue_depth="@, sample.max_local_queue_depth);
    lemma_shows(texts, 9, " blocking_queue_depth="@, sample.blocking_queue_depth);
    lemma_shows(texts, 10, " overflow_count="@, sample.overflow_count);
    lemma_shows(texts, 11, " budget_forced_yields="@, sample.budget_forced_yields);
    lemma_shows(texts, 12, " io_driver_ready="@, sample.io_driver_ready);
}

/// A stamped line is the line with the text of the point in time for its
/// timestamp, and one without a timestamp if the point has no such text.
pub proof fn law_stamped_lines(
    unix_nanos: i128,
    sample: RuntimeSample,
    stamped: String,
    timestamp: &str,
    line: String,
)
    requires
        call_ensures(stamped_metrics_line, (unix_nanos, &sample), stamped),
        call_ensures(metrics_line, (timestamp, &sample), line),
        match rfc3339_text(unix_nanos as int) {
            Some(text) => timestamp@ == text,
            None => timestamp@.len() == 0,
        },
    ensures
        stamped@ == line@,
{
    if rfc3339_text(unix_nanos as int) is None {
        assert(timestamp@ =~= Seq::empty());
    }
}

/// The task inspection server is handed out once.
pub proof fn law_console_server_is_taken_once<C, F>(
    guard: &mut DiagnosticsGuard<C, F>,
    taken: Option<C>,
    again: &mut DiagnosticsGuard<C, F>,
    second: Option<C>,
)
    requires
        call_ensures(DiagnosticsGuard::<C, F>::take_console_server, (guard,), taken),
        *old(again) == *final(guard),
        call_ensures(DiagnosticsGuard::<C, F>::take_console_server, (again,), second),
    ensures
        taken == old(guard).console_server,
        second is None,
        final(again).flame_guard == old(guard).flame_guard,
{
}

/// Every placeholder in an output path is replaced by the home directory, as
/// replacing it in the text of the path does; what is relative then is seen
/// from the settings' directory.
pub proof fn law_every_placeholder_is_filled_in(
    raw: &[u8],
    raw_text: &str,
    home_path: &[u8],
    home_text: &str,
    config_dir: &[u8],
    path: Vec<u8>,
    placeholder: &str,
    filled_text: String,
    filled_path: &[u8],
    whole: Vec<u8>,
)
    requires
        raw@ == vstd::utf8::encode_utf8(raw_text@),
        home_path@ == vstd::utf8::encode_utf8(home_text@),
        call_ensures(expand_path, (raw, home_path, config_dir), path),
        placeholder@ == "$AENV_HOME"@,
        call_ensures(replace, (raw_text, placeholder, home_text), filled_text),
        filled_path@ == vstd::utf8::encode_utf8(filled_text@),
        call_ensures(join, (config_dir, filled_path), whole),
    ensures
        filled_path@.len() > 0 && filled_path@[0] == 0x2f ==> path@ == filled_path@,
        !(filled_path@.len() > 0 && filled_path@[0] == 0x2f) ==> path@ == whole@,
{
    vstd::utf8::encode_utf8_valid_utf8(raw_text@);
    vstd::utf8::encode_utf8_decode_utf8(raw_text@);
    vstd::utf8::encode_utf8_valid_utf8(home_text@);
    vstd::utf8::encode_utf8_decode_utf8(home_text@);
}

} // verus!
