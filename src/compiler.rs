//! The CSS pass over compiled stylesheets: `lightningcss` parses the CSS, optionally
//! minifies it, and prints it for the configured browser targets. Expanding the
//! stylesheet source into CSS reads imported modules from disk and is done by the
//! caller.
use vstd::prelude::*;

use crate::config::{BrowserVersions, SabryConfig};

verus! {

/// Why compilation failed, with the collaborator's diagnostic.
#[derive(Debug)]
pub enum SabryCompilerError {
    /// The stylesheet compiler refused the source (its diagnostic, as reported by
    /// the caller that ran it).
    GrassCompile(String),
    /// The CSS transformer could not print the compiled CSS.
    LightPrint(String),
    /// The CSS transformer could not minify the compiled CSS.
    LightMinify(String),
    /// The CSS transformer could not parse the compiled CSS.
    LightParse(String),
    /// A configured browser version is not a version.
    Targets(String),
}

#[verifier::external_type_specification]
#[verifier::external_body]
pub struct ExLightBrowsers(lightningcss::targets::Browsers);

/// Moves the library's browser versions into lightningcss's `Browsers`, field by field.
#[verifier::external_body]
fn browsers_of(b: &BrowserVersions) -> lightningcss::targets::Browsers {
    lightningcss::targets::Browsers {
        android: b.android,
        chrome: b.chrome,
        edge: b.edge,
        firefox: b.firefox,
        ie: b.ie,
        ios_saf: b.ios_saf,
        opera: b.opera,
        safari: b.safari,
        samsung: b.samsung,
    }
}

/// Why the CSS transformer failed, and its diagnostic.
#[derive(Debug)]
pub enum LightFailure {
    Parse(String),
    Minify(String),
    Print(String),
}

/// What the CSS transformer makes of some CSS: the printed code, or the step that
/// failed with its diagnostic.
pub enum LightOutcome {
    Css(Seq<char>),
    ParseError(Seq<char>),
    MinifyError(Seq<char>),
    PrintError(Seq<char>),
}

/// What lightningcss makes of `css` for the browser targets `targets`, minified or
/// not: a function of these alone.
pub uninterp spec fn light_output(css: Seq<char>, minify: bool, targets: BrowserVersions) -> LightOutcome;

pub open spec fn light_view(r: Result<String, LightFailure>) -> LightOutcome {
    match r {
        Ok(c) => LightOutcome::Css(c@),
        Err(LightFailure::Parse(m)) => LightOutcome::ParseError(m@),
        Err(LightFailure::Minify(m)) => LightOutcome::MinifyError(m@),
        Err(LightFailure::Print(m)) => LightOutcome::PrintError(m@),
    }
}

/// Relies on lightningcss's `StyleSheet::parse` (default parser options), then
/// `StyleSheet::to_css` unminified for the given targets. The parsed sheet cannot
/// leave this function: its type names lightningcss's private `DefaultAtRule`.
#[verifier::external_body]
fn light_print(css: &str, targets: &BrowserVersions) -> (r: Result<String, LightFailure>)
    ensures
        light_view(r) == light_output(css@, false, *targets),
{
    let targets = lightningcss::targets::Targets { browsers: Some(browsers_of(targets)), ..Default::default() };
    let sheet = lightningcss::stylesheet::StyleSheet::parse(css, Default::default())
        .map_err(|e| LightFailure::Parse(e.kind.to_string()))?;
    let options = lightningcss::printer::PrinterOptions { minify: false, targets, ..Default::default() };
    sheet.to_css(options).map(|r| r.code).map_err(|e| LightFailure::Print(e.kind.to_string()))
}

/// Relies on lightningcss's `StyleSheet::parse` (default parser options), then
/// `StyleSheet::minify` and `StyleSheet::to_css` minified, both for the given targets.
/// The parsed sheet cannot leave this function, as for [light_print].
#[verifier::external_body]
fn light_minify_print(css: &str, targets: &BrowserVersions) -> (r: Result<String, LightFailure>)
    ensures
        light_view(r) == light_output(css@, true, *targets),
{
    let targets = lightningcss::targets::Targets { browsers: Some(browsers_of(targets)), ..Default::default() };
    let mut sheet = lightningcss::stylesheet::StyleSheet::parse(css, Default::default())
        .map_err(|e| LightFailure::Parse(e.kind.to_string()))?;
    let minify = lightningcss::stylesheet::MinifyOptions { targets, ..Default::default() };
    sheet.minify(minify).map_err(|e| LightFailure::Minify(e.kind.to_string()))?;
    let options = lightningcss::printer::PrinterOptions { minify: true, targets, ..Default::default() };
    sheet.to_css(options).map(|r| r.code).map_err(|e| LightFailure::Print(e.kind.to_string()))
}

/// What the CSS pass makes of `css` under `config`.
pub open spec fn light_of(css: Seq<char>, config: SabryConfig) -> LightOutcome {
    light_output(css, config.css.minify, config.lightningcss.targets.spec_versions())
}

/// `r` is what the CSS transformer gave as `outcome`, told as a compiler error.
pub open spec fn light_matches(r: Result<String, SabryCompilerError>, outcome: LightOutcome) -> bool {
    match r {
        Ok(c) => outcome == LightOutcome::Css(c@),
        Err(SabryCompilerError::LightParse(m)) => outcome == LightOutcome::ParseError(m@),
        Err(SabryCompilerError::LightMinify(m)) => outcome == LightOutcome::MinifyError(m@),
        Err(SabryCompilerError::LightPrint(m)) => outcome == LightOutcome::PrintError(m@),
        _ => false,
    }
}

/// Compiles stylesheets as the configuration asks.
pub struct CompilerAdapter {
    pub config: SabryConfig,
}

impl CompilerAdapter {
    pub fn new(config: SabryConfig) -> (r: Self)
        ensures
            r.config == config,
    {
        CompilerAdapter { config }
    }

    /// Parses `css`, minifies it when the configuration asks, and prints it for the
    /// configured browser targets. Fails, before any parse, where a configured browser
    /// version is not a version.
    pub fn lightningcss(&self, css: &str) -> (r: Result<String, SabryCompilerError>)
        ensures
            self.config.lightningcss.targets.invalid_version() ==> r matches Err(
                SabryCompilerError::Targets(_),
            ),
            !self.config.lightningcss.targets.invalid_version() ==> light_matches(
                r,
                light_output(css@, self.config.css.minify, self.config.lightningcss.targets.spec_versions()),
            ),
    {
        let targets = match self.config.lightningcss.targets.versions() {
            Ok(t) => t,
            Err(which) => return Err(SabryCompilerError::Targets(which)),
        };
        let outcome = if self.config.css.minify {
            light_minify_print(css, &targets)
        } else {
            light_print(css, &targets)
        };
        match outcome {
            Ok(c) => Ok(c),
            Err(LightFailure::Parse(e)) => Err(SabryCompilerError::LightParse(e)),
            Err(LightFailure::Minify(e)) => Err(SabryCompilerError::LightMinify(e)),
            Err(LightFailure::Print(e)) => Err(SabryCompilerError::LightPrint(e)),
        }
    }
}

} // verus!
