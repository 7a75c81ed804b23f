//! Developing cartridges: scaffolding a project, installing it under the local
//! `dev` folder, and running its caps by name before they are published.
//!
//! What is decided here is which names are good, what a scaffold holds, where
//! an install goes and what it records, and whether a cap's names are free. The
//! files, the running of an entry and the lookup of names are the caller's.

use crate::bifaci::cartridge_slug::DEV_SLUG;
use crate::cartridge_discovery::{CartridgeChannel, CartridgeJson};
use crate::fabric::alias::{is_alias_name, is_name_char};
use crate::fabric::registry::Cap;
use crate::machine::notation::lemma_decimal_digits;
use crate::path::{below, path_join};
use crate::text::{
    add_text, begins, chars_of, decimal, decimal_text, ends, ends_with, has_text, lossy_text,
    opt_text, owned, replace_all, replaced, same_text, signed_decimal, signed_decimal_text, texts,
    to_lossy_text, trim, trimmed,
};
use crate::urn::{cap_parse, cap_text, is_plain, CapUrn, TagView};
use vstd::prelude::*;

verus! {

broadcast use vstd::string::group_string_axioms;

/// The file of a project that is run.
pub const PYTHON_ENTRY: &'static str = "cartridge.py";

/// What can go wrong with a cartridge under development.
#[derive(Debug, PartialEq, Eq)]
pub enum DevError {
    Io(String),
    InvalidName(String),
    AlreadyExists(String),
    NoEntry(String),
    ManifestSpawn { entry: String, source: String },
    ManifestFailed { entry: String, code: Option<i32>, stderr: String },
    ManifestParse { entry: String, source: String },
    NotDev { registry_url: String },
    FabricConflict { alias: String, dev_urn: String, fabric_urn: String },
}

/// How a process ended.
pub open spec fn exit_words(code: Option<i32>) -> Seq<char> {
    match code {
        Some(c) => "code "@ + signed_decimal(c as int),
        None => "a signal"@,
    }
}

impl DevError {
    /// The error as a message.
    pub open spec fn message(self) -> Seq<char> {
        match self {
            DevError::Io(m) => m@,
            DevError::InvalidName(n) => "invalid cartridge name '"@ + n@
                + "': use a lowercase, path-safe name matching [a-z0-9] with '-' or '_' separators (e.g. sentiment-tagger)"@,
            DevError::AlreadyExists(p) => "'"@ + p@
                + "' already exists — pick a new name or remove it first"@,
            DevError::NoEntry(p) => "no cartridge entry '"@ + p@
                + "' found in the project — expected a `cartridge.py` file (create the project with `capdag new`)"@,
            DevError::ManifestSpawn { entry, source } => "could not run the cartridge entry '"@
                + entry@ + "' to read its manifest: "@ + source@
                + ". Make sure it is executable and its dependencies (capdag) are importable."@,
            DevError::ManifestFailed { entry, code, stderr } => "the cartridge entry '"@ + entry@
                + "' exited with "@ + exit_words(code) + " when asked for its manifest:\n"@
                + trimmed(stderr@),
            DevError::ManifestParse { entry, source } => "the cartridge entry '"@ + entry@
                + "' printed a manifest capdag could not parse: "@ + source@,
            DevError::NotDev { registry_url } => "this project declares registry_url='"@
                + registry_url@
                + "' — `dev-install` only installs DEV cartridges (registry_url must be null). Publish it through the cartridge registry instead, or set registry_url to null for local development."@,
            DevError::FabricConflict { alias, dev_urn, fabric_urn } => "dev cap '"@ + dev_urn@
                + "' claims alias '"@ + alias@
                + "', but the fabric already maps that alias to a different cap '"@ + fabric_urn@
                + "'. A dev cartridge may declare caps the fabric does not know, but its aliases must not collide with the fabric. Rename the dev cap's alias."@,
        }
    }

    /// The error as a message.
    pub fn to_string(&self) -> (r: String)
        ensures
            r@ == self.message(),
    {
        let mut out = String::new();
        match self {
            DevError::Io(m) => {
                return owned(m);
            },
            DevError::InvalidName(n) => {
                add_text(&mut out, "invalid cartridge name '");
                add_text(&mut out, n);
                add_text(
                    &mut out,
                    "': use a lowercase, path-safe name matching [a-z0-9] with '-' or '_' separators (e.g. sentiment-tagger)",
                );
            },
            DevError::AlreadyExists(p) => {
                add_text(&mut out, "'");
                add_text(&mut out, p);
                add_text(&mut out, "' already exists — pick a new name or remove it first");
            },
            DevError::NoEntry(p) => {
                add_text(&mut out, "no cartridge entry '");
                add_text(&mut out, p);
                add_text(
                    &mut out,
                    "' found in the project — expected a `cartridge.py` file (create the project with `capdag new`)",
                );
            },
            DevError::ManifestSpawn { entry, source } => {
                add_text(&mut out, "could not run the cartridge entry '");
                add_text(&mut out, entry);
                add_text(&mut out, "' to read its manifest: ");
                add_text(&mut out, source);
                add_text(
                    &mut out,
                    ". Make sure it is executable and its dependencies (capdag) are importable.",
                );
            },
            DevError::ManifestFailed { entry, code, stderr } => {
                add_text(&mut out, "the cartridge entry '");
                add_text(&mut out, entry);
                add_text(&mut out, "' exited with ");
                add_text(&mut out, &exit_text(*code));
                add_text(&mut out, " when asked for its manifest:\n");
                add_text(&mut out, &trim(stderr));
            },
            DevError::ManifestParse { entry, source } => {
                add_text(&mut out, "the cartridge entry '");
                add_text(&mut out, entry);
                add_text(&mut out, "' printed a manifest capdag could not parse: ");
                add_text(&mut out, source);
            },
            DevError::NotDev { registry_url } => {
                add_text(&mut out, "this project declares registry_url='");
                add_text(&mut out, registry_url);
                add_text(
                    &mut out,
                    "' — `dev-install` only installs DEV cartridges (registry_url must be null). Publish it through the cartridge registry instead, or set registry_url to null for local development.",
                );
            },
            DevError::FabricConflict { alias, dev_urn, fabric_urn } => {
                add_text(&mut out, "dev cap '");
                add_text(&mut out, dev_urn);
                add_text(&mut out, "' claims alias '");
                add_text(&mut out, alias);
                add_text(
                    &mut out,
                    "', but the fabric already maps that alias to a different cap '",
                );
                add_text(&mut out, fabric_urn);
                add_text(
                    &mut out,
                    "'. A dev cartridge may declare caps the fabric does not know, but its aliases must not collide with the fabric. Rename the dev cap's alias.",
                );
            },
        }
        assert(out@ =~= self.message());
        out
    }
}

/// How a process ended.
fn exit_text(code: Option<i32>) -> (r: String)
    ensures
        r@ == exit_words(code),
{
    match code {
        Some(c) => {
            let mut out = owned("code ");
            add_text(&mut out, &signed_decimal_text(c as i64));
            out
        },
        None => owned("a signal"),
    }
}

/// The error of a file operation.
pub fn io_err(context: &str, e: &str) -> (r: DevError)
    ensures
        r matches DevError::Io(m) && m@ == context@ + ": "@ + e@,
{
    let mut out = owned(context);
    add_text(&mut out, ": ");
    add_text(&mut out, e);
    DevError::Io(out)
}

// ---------------------------------------------------------------------------
// Scaffolding
// ---------------------------------------------------------------------------

/// A lower-case letter or a digit.
pub open spec fn is_name_start(c: char) -> bool {
    'a' <= c <= 'z' || '0' <= c <= '9'
}

/// A name that is good for a folder, an alias and a tag: lower-case letters,
/// digits, dashes and underscores, with a letter or a digit first.
pub open spec fn is_cartridge_name(name: Seq<char>) -> bool {
    &&& name.len() > 0
    &&& is_name_start(name[0])
    &&& forall|i: int|
        0 <= i < name.len() ==> is_name_start(#[trigger] name[i]) || name[i] == '-' || name[i]
            == '_'
}

/// Whether a name is good for a cartridge.
pub fn valid_cartridge_name(name: &str) -> (r: bool)
    ensures
        r == is_cartridge_name(name@),
{
    let cs = chars_of(name);
    if cs.len() == 0 {
        return false;
    }
    let first = cs[0];
    if !(('a' <= first && first <= 'z') || ('0' <= first && first <= '9')) {
        return false;
    }
    let mut i: usize = 0;
    while i < cs.len()
        invariant
            i <= cs@.len(),
            cs@ == name@,
            forall|j: int|
                0 <= j < i ==> is_name_start(#[trigger] cs@[j]) || cs@[j] == '-' || cs@[j] == '_',
        decreases cs@.len() - i,
    {
        let c = cs[i];
        if !(('a' <= c && c <= 'z') || ('0' <= c && c <= '9') || c == '-' || c == '_') {
            assert(!is_name_start(name@[i as int]));
            return false;
        }
        i = i + 1;
    }
    true
}

/// The source of a fresh Python cartridge, with a placeholder for the name.
pub const PYTHON_CARTRIDGE_TEMPLATE: &'static str = r##"#!/usr/bin/env python3
"""__CARTRIDGE_NAME__ — a MachineFabric cartridge (Python), scaffolded by `capdag new`.

Reads UTF-8 text on stdin and emits a single tag word: `positive`,
`neutral`, or `negative`. This is the smallest useful shape of a cartridge:
one custom cap, one Op, one manifest, one main(). Replace `classify()` and
the input/output media URNs to build your own capability.

Develop it with:
    capdag dev-install .          # install/update under the local `dev` slug
    echo "I love this" | capdag __CARTRIDGE_NAME__
    # edit classify(), then re-run `capdag dev-install .` to update
"""

from capdag.bifaci.cartridge_runtime import (
    CartridgeRuntime,
    Request,
    WET_KEY_REQUEST,
)
from capdag.bifaci.manifest import CapManifest, default_group
from capdag.cap.definition import (
    Cap,
    CapArg,
    CapOutput,
    PositionSource,
    StdinSource,
)
from capdag.standard.caps import CAP_IDENTITY
from capdag.urn.cap_urn import CapUrn, CapUrnBuilder
from ops import DryContext, Op, OpMetadata, WetContext


# --- Domain logic — pure Python, no MachineFabric awareness. ----------------

POSITIVE_WORDS = {
    "good", "great", "love", "happy", "excellent",
    "wonderful", "amazing", "fantastic", "delightful",
}
NEGATIVE_WORDS = {
    "bad", "terrible", "hate", "sad", "awful",
    "disappointing", "horrible", "miserable", "broken",
}


def classify(text: str) -> str:
    """Return one of `positive`, `neutral`, `negative` for the input.

    Case-insensitive whole-word match against two small word lists. Replace
    this with a real model when you graduate from `getting started`.
    """
    tokens = {t.strip(".,!?;:").lower() for t in text.split()}
    pos = len(tokens & POSITIVE_WORDS)
    neg = len(tokens & NEGATIVE_WORDS)
    if pos > neg:
        return "positive"
    if neg > pos:
        return "negative"
    return "neutral"


# --- Op — implements the cap. -----------------------------------------------

class TagOp(Op):
    async def perform(self, dry: DryContext, wet: WetContext) -> None:
        req: Request = wet.get_required(WET_KEY_REQUEST)
        # Drain the (finite) input stream(s) and decode as UTF-8 text.
        text = req.take_input().collect_all_bytes().decode("utf-8")
        # emit_cbor writes one CHUNK frame; the runtime emits END for us.
        req.emitter().emit_cbor(classify(text))

    def metadata(self) -> OpMetadata:
        return (
            OpMetadata.builder("TagOp")
            .description("Classify text as positive / neutral / negative")
            .build()
        )


# --- URN + manifest. Media/cap URNs are seeded from the project name so they -
#     are unique per project and never collide with the published fabric. -----

IN_MEDIA = "media:enc=utf-8;__CARTRIDGE_NAME__-input"
OUT_MEDIA = "media:enc=utf-8;__CARTRIDGE_NAME__-tag"


def _cap_urn() -> CapUrn:
    """Build the cap URN ONCE via the builder, so the string we register with
    matches the runtime's canonical (alphabetically-sorted) byte form."""
    return (
        CapUrnBuilder()
        .marker("__CARTRIDGE_NAME__")
        .in_spec(IN_MEDIA)
        .out_spec(OUT_MEDIA)
        .build()
    )


CAP_URN: str = _cap_urn().to_string()


def build_manifest() -> CapManifest:
    cap = Cap(_cap_urn(), "__CARTRIDGE_NAME__", ["__CARTRIDGE_NAME__"])
    cap.cap_description = "Classify a piece of text as positive, neutral, or negative."
    cap.args = [
        CapArg(
            media_urn=IN_MEDIA,
            required=True,
            sources=[StdinSource(IN_MEDIA), PositionSource(0)],
            arg_description="UTF-8 text to classify.",
        )
    ]
    cap.output = CapOutput(
        media_urn=OUT_MEDIA,
        output_description="One of the literal strings 'positive', 'neutral', or 'negative'.",
    )

    # Every cartridge advertises CAP_IDENTITY; the runtime auto-registers its handler.
    identity = Cap(CapUrn.from_string(CAP_IDENTITY), "Identity", ["identity"])

    return CapManifest(
        name="__CARTRIDGE_NAME__",
        version="0.1.0",
        channel="nightly",          # 'nightly' or 'release'; nightly for dev.
        registry_url=None,           # None => dev cartridge (installed locally).
        description="Classify a piece of text as positive, neutral, or negative.",
        cap_groups=[default_group([identity, cap])],
    )


def main() -> None:
    runtime = CartridgeRuntime.with_manifest(build_manifest())
    runtime.register_op_type(CAP_URN, TagOp)
    runtime.run()


if __name__ == "__main__":
    main()
"##;

/// The source of a fresh Python cartridge: the template with the name in every
/// place where it is asked for.
pub fn python_cartridge_source(name: &str) -> (r: String)
    ensures
        r@ == replaced(PYTHON_CARTRIDGE_TEMPLATE@, "__CARTRIDGE_NAME__"@, name@),
{
    replace_all(PYTHON_CARTRIDGE_TEMPLATE, "__CARTRIDGE_NAME__", name)
}

/// The notes that go with a fresh cartridge, with a placeholder for the name.
pub const README_TEMPLATE: &'static str = "# {name}

A MachineFabric cartridge scaffolded by `capdag new`. It reads UTF-8 text on
stdin and emits `positive`, `neutral`, or `negative`.

## Develop

```bash
# 1. Install capdag (the cartridge runtime) so `cartridge.py` can import it:
pip install capdag

# 2. Install this cartridge under the local `dev` slug:
capdag dev-install .

# 3. Run your cap through the capdag host:
echo \"I love this\" | capdag {name}
# => positive

# 4. Edit classify() in cartridge.py, then re-run step 2 to update the install:
capdag dev-install .
```

The cap is a *dev* cap: it is not published to the fabric, so you can develop
and run it locally as long as its alias (`{name}`) does not collide with a
published cap.
";

/// The notes that go with a fresh cartridge.
pub fn readme_source(name: &str) -> (r: String)
    ensures
        r@ == replaced(README_TEMPLATE@, "{name}"@, name@),
{
    replace_all(README_TEMPLATE, "{name}", name)
}

/// The list of files that a fresh project leaves out of version control.
pub const GITIGNORE_SOURCE: &'static str = ".venv/
__pycache__/
*.pyc
.pytest_cache/
cartridge.json
";

/// A file to write.
#[derive(Debug, PartialEq, Eq)]
pub struct ScaffoldFile {
    pub path: String,
    pub content: String,
    pub executable: bool,
}

/// A project to write.
#[derive(Debug, PartialEq, Eq)]
pub struct Scaffold {
    pub project_dir: String,
    pub files: Vec<ScaffoldFile>,
}

/// What a file of a project holds.
pub open spec fn file_is(
    f: ScaffoldFile,
    path: Seq<char>,
    content: Seq<char>,
    executable: bool,
) -> bool {
    f.path@ == path && f.content@ == content && f.executable == executable
}

/// A fresh Python cartridge in a new folder `name` below `parent_dir`: the
/// entry, the notes and the list of ignored files. A bad name and a folder that
/// is there already (`exists`) are refused, in that order.
pub fn scaffold_python_cartridge(name: &str, parent_dir: &str, exists: bool) -> (r: Result<
    Scaffold,
    DevError,
>)
    ensures
        ({
            let dir = below(parent_dir@, name@);
            match r {
                Ok(s) => {
                    &&& is_cartridge_name(name@) && !exists
                    &&& s.project_dir@ == dir
                    &&& s.files@.len() == 3
                    &&& file_is(
                        s.files@[0],
                        below(dir, PYTHON_ENTRY@),
                        replaced(PYTHON_CARTRIDGE_TEMPLATE@, "__CARTRIDGE_NAME__"@, name@),
                        true,
                    )
                    &&& file_is(
                        s.files@[1],
                        below(dir, "README.md"@),
                        replaced(README_TEMPLATE@, "{name}"@, name@),
                        false,
                    )
                    &&& file_is(s.files@[2], below(dir, ".gitignore"@), GITIGNORE_SOURCE@, false)
                },
                Err(DevError::InvalidName(n)) => !is_cartridge_name(name@) && n@ == name@,
                Err(DevError::AlreadyExists(p)) => is_cartridge_name(name@) && exists && p@ == dir,
                Err(_) => false,
            }
        }),
{
    if !valid_cartridge_name(name) {
        return Err(DevError::InvalidName(owned(name)));
    }
    let project_dir = path_join(parent_dir, name);
    if exists {
        return Err(DevError::AlreadyExists(project_dir));
    }
    let mut files: Vec<ScaffoldFile> = Vec::new();
    files.push(
        ScaffoldFile {
            path: path_join(&project_dir, PYTHON_ENTRY),
            content: python_cartridge_source(name),
            executable: true,
        },
    );
    files.push(
        ScaffoldFile {
            path: path_join(&project_dir, "README.md"),
            content: readme_source(name),
            executable: false,
        },
    );
    files.push(
        ScaffoldFile {
            path: path_join(&project_dir, ".gitignore"),
            content: owned(GITIGNORE_SOURCE),
            executable: false,
        },
    );
    Ok(Scaffold { project_dir, files })
}

// ---------------------------------------------------------------------------
// Manifests
// ---------------------------------------------------------------------------

/// A group of caps of a cartridge.
#[derive(Debug)]
pub struct CapGroup {
    pub name: String,
    pub caps: Vec<Cap>,
}

/// What a cartridge says that it can do.
#[derive(Debug)]
pub struct CapManifest {
    pub name: String,
    pub version: String,
    pub channel: CartridgeChannel,
    /// The registry that the cartridge is published in, if it is.
    pub registry_url: Option<String>,
    pub cap_groups: Vec<CapGroup>,
}

/// How the entry ended when it was asked for its manifest.
#[derive(Debug)]
pub struct EntryOutput {
    pub success: bool,
    pub code: Option<i32>,
    pub stdout: Vec<u8>,
    pub stderr: Vec<u8>,
}

/// The bytes of the manifest that the entry printed: none if it could not be
/// started, or did not end well.
pub fn read_entry_manifest(entry: &str, output: Result<EntryOutput, String>) -> (r: Result<
    Vec<u8>,
    DevError,
>)
    ensures
        match output {
            Err(e) => r matches Err(DevError::ManifestSpawn { entry: p, source }) && p@ == entry@
                && source@ == e@,
            Ok(o) => if o.success {
                r matches Ok(bytes) && bytes@ == o.stdout@
            } else {
                r matches Err(DevError::ManifestFailed { entry: p, code, stderr }) && p@ == entry@
                    && code == o.code && stderr@ == lossy_text(o.stderr@)
            },
        },
{
    match output {
        Err(source) => Err(DevError::ManifestSpawn { entry: owned(entry), source }),
        Ok(o) => {
            if !o.success {
                return Err(
                    DevError::ManifestFailed {
                        entry: owned(entry),
                        code: o.code,
                        stderr: to_lossy_text(&o.stderr),
                    },
                );
            }
            Ok(o.stdout)
        },
    }
}

/// The path of a project's entry, where a file stands there (`is_file`).
pub fn project_entry(project_dir: &str, is_file: bool) -> (r: Result<String, DevError>)
    ensures
        match r {
            Ok(p) => is_file && p@ == below(project_dir@, PYTHON_ENTRY@),
            Err(DevError::NoEntry(p)) => !is_file && p@ == below(project_dir@, PYTHON_ENTRY@),
            Err(_) => false,
        },
{
    let entry = path_join(project_dir, PYTHON_ENTRY);
    if !is_file {
        return Err(DevError::NoEntry(entry));
    }
    Ok(entry)
}

// ---------------------------------------------------------------------------
// Installing
// ---------------------------------------------------------------------------

/// The folder of development installs of one version of the registry layout.
pub open spec fn dev_root_of(user_cartridge_dir: Seq<char>, registry_version: u32) -> Seq<char> {
    below(below(user_cartridge_dir, DEV_SLUG@), "v"@ + decimal(registry_version as nat))
}

/// The folder of development installs of one version of the registry layout.
pub fn dev_root(user_cartridge_dir: &str, registry_version: u32) -> (r: String)
    ensures
        r@ == dev_root_of(user_cartridge_dir@, registry_version),
{
    let mut v = owned("v");
    add_text(&mut v, &decimal_text(registry_version as u64));
    path_join(&path_join(user_cartridge_dir, DEV_SLUG), &v)
}

/// The folder that a development install goes into.
pub open spec fn version_dir_of(
    user_cartridge_dir: Seq<char>,
    registry_version: u32,
    channel: CartridgeChannel,
    name: Seq<char>,
    version: Seq<char>,
) -> Seq<char> {
    below(
        below(below(dev_root_of(user_cartridge_dir, registry_version), channel.name()), name),
        version,
    )
}

/// The folder that a development install goes into: the folder `dev`, the
/// version of the registry layout, the channel, the name and the version.
pub fn dev_version_dir(
    user_cartridge_dir: &str,
    registry_version: u32,
    channel: CartridgeChannel,
    name: &str,
    version: &str,
) -> (r: String)
    ensures
        r@ == version_dir_of(user_cartridge_dir@, registry_version, channel, name@, version@),
{
    let root = dev_root(user_cartridge_dir, registry_version);
    path_join(&path_join(&path_join(&root, channel.as_str()), name), version)
}

/// Where an installed cartridge came from.
#[derive(Debug, Clone, Copy, PartialEq, Eq, Structural)]
pub enum CartridgeInstallSource {
    /// A project under development.
    Dev,
}

impl CartridgeInstallSource {
    /// The source as it is recorded.
    pub fn as_str(self) -> (r: &'static str)
        ensures
            r@ == "dev"@,
    {
        match self {
            CartridgeInstallSource::Dev => "dev",
        }
    }
}

/// What is recorded of a development install.
#[derive(Debug)]
pub struct InstallRecord {
    pub cartridge: CartridgeJson,
    pub installed_from: Option<CartridgeInstallSource>,
    /// The time of the install in seconds, followed by `Z`.
    pub installed_at: String,
    pub source_url: String,
    pub package_sha256: String,
    pub package_size: u64,
}

/// A development install: where it goes and what is recorded of it.
#[derive(Debug)]
pub struct StagedInstall {
    pub version_dir: String,
    pub record: InstallRecord,
}

/// The install of a project under development. One that is published is
/// refused. The project replaces what stands in the folder.
pub fn stage_dev_cartridge(
    manifest: &CapManifest,
    user_cartridge_dir: &str,
    registry_version: u32,
    fabric_manifest_version: u32,
    now: u64,
) -> (r: Result<StagedInstall, DevError>)
    ensures
        match r {
            Err(DevError::NotDev { registry_url }) => opt_text(manifest.registry_url) == Some(
                registry_url@,
            ),
            Err(_) => false,
            Ok(s) => {
                &&& manifest.registry_url is None
                &&& s.version_dir@ == version_dir_of(
                    user_cartridge_dir@,
                    registry_version,
                    manifest.channel,
                    manifest.name@,
                    manifest.version@,
                )
                &&& s.record.cartridge.name@ == manifest.name@
                &&& s.record.cartridge.version@ == manifest.version@
                &&& s.record.cartridge.channel == manifest.channel
                &&& s.record.cartridge.registry_url is None
                &&& s.record.cartridge.entry@ == PYTHON_ENTRY@
                &&& s.record.cartridge.fabric_manifest_version == fabric_manifest_version
                &&& s.record.installed_from == Some(CartridgeInstallSource::Dev)
                &&& s.record.installed_at@ == decimal(now as nat) + "Z"@
                &&& s.record.source_url@ == ""@
                &&& s.record.package_sha256@ == ""@
                &&& s.record.package_size == 0
            },
        },
{
    match &manifest.registry_url {
        Some(url) => {
            return Err(DevError::NotDev { registry_url: url.clone() });
        },
        None => {},
    }
    let version_dir = dev_version_dir(
        user_cartridge_dir,
        registry_version,
        manifest.channel,
        &manifest.name,
        &manifest.version,
    );
    let mut installed_at = decimal_text(now);
    add_text(&mut installed_at, "Z");
    Ok(
        StagedInstall {
            version_dir,
            record: InstallRecord {
                cartridge: CartridgeJson {
                    name: manifest.name.clone(),
                    version: manifest.version.clone(),
                    channel: manifest.channel,
                    registry_url: None,
                    entry: owned(PYTHON_ENTRY),
                    fabric_manifest_version,
                },
                installed_from: Some(CartridgeInstallSource::Dev),
                installed_at,
                source_url: owned(""),
                package_sha256: owned(""),
                package_size: 0,
            },
        },
    )
}

/// What a developer leaves lying about, which no install holds.
pub open spec fn is_scratch(name: Seq<char>) -> bool {
    name == ".venv"@ || name == "__pycache__"@ || name == ".git"@ || name == ".pytest_cache"@
        || name == "cartridge.json"@ || ends(name, ".pyc"@)
}

/// Whether a file or folder of a project stays out of an install.
pub fn is_ignored_project_entry(name: &str) -> (r: bool)
    ensures
        r == is_scratch(name@),
{
    same_text(name, ".venv") || same_text(name, "__pycache__") || same_text(name, ".git")
        || same_text(name, ".pytest_cache") || same_text(name, "cartridge.json") || ends_with(
        name,
        ".pyc",
    )
}

// ---------------------------------------------------------------------------
// Caps by name
// ---------------------------------------------------------------------------

/// The caps of all groups, in order.
pub open spec fn caps_of(groups: Seq<CapGroup>) -> Seq<Cap>
    decreases groups.len(),
{
    if groups.len() == 0 {
        Seq::empty()
    } else {
        caps_of(groups.drop_last()) + groups.last().caps@
    }
}

/// The cap declares the name.
pub open spec fn claims(cap: Cap, alias: Seq<char>) -> bool {
    texts(cap.aliases@).contains(alias)
}

/// The cap at `i` is the first of which `p` holds.
pub open spec fn first_at(caps: Seq<Cap>, i: int, p: spec_fn(Cap) -> bool) -> bool {
    &&& 0 <= i < caps.len()
    &&& p(caps[i])
    &&& forall|j: int| 0 <= j < i ==> !p(#[trigger] caps[j])
}

/// The caps of the first groups come first.
proof fn lemma_caps_prefix(groups: Seq<CapGroup>, n: int)
    requires
        0 <= n <= groups.len(),
    ensures
        caps_of(groups.subrange(0, n)).len() <= caps_of(groups).len(),
        forall|i: int|
            0 <= i < caps_of(groups.subrange(0, n)).len() ==> #[trigger] caps_of(groups)[i]
                == caps_of(groups.subrange(0, n))[i],
    decreases groups.len(),
{
    if n == groups.len() {
        assert(groups.subrange(0, n) =~= groups);
    } else {
        lemma_caps_prefix(groups.drop_last(), n);
        assert(groups.drop_last().subrange(0, n) =~= groups.subrange(0, n));
    }
}

/// The first cap of a cartridge that declares the name.
pub fn find_dev_cap_by_alias<'a>(manifest: &'a CapManifest, alias: &str) -> (r: Option<&'a Cap>)
    ensures
        ({
            let caps = caps_of(manifest.cap_groups@);
            let wanted = |c: Cap| claims(c, alias@);
            match r {
                Some(cap) => exists|i: int| #[trigger] first_at(caps, i, wanted) && *cap == caps[i],
                None => forall|j: int| 0 <= j < caps.len() ==> !claims(#[trigger] caps[j], alias@),
            }
        }),
{
    let ghost caps = caps_of(manifest.cap_groups@);
    let ghost wanted = |c: Cap| claims(c, alias@);
    let groups = &manifest.cap_groups;
    let mut g: usize = 0;
    assert(groups@.subrange(0, 0) =~= Seq::<CapGroup>::empty());
    while g < groups.len()
        invariant
            g <= groups@.len(),
            groups == &manifest.cap_groups,
            caps == caps_of(groups@),
            wanted == (|c: Cap| claims(c, alias@)),
            caps_of(groups@.subrange(0, g as int)).len() <= caps.len(),
            forall|j: int|
                0 <= j < caps_of(groups@.subrange(0, g as int)).len() ==> !claims(
                    #[trigger] caps[j],
                    alias@,
                ),
        decreases groups@.len() - g,
    {
        let ghost base = caps_of(groups@.subrange(0, g as int)).len();
        let ghost upto = groups@.subrange(0, g + 1);
        assert(upto.drop_last() =~= groups@.subrange(0, g as int));
        proof {
            lemma_caps_prefix(groups@, g + 1);
            assert(caps_of(upto).len() == base + groups@[g as int].caps@.len());
            assert forall|k: int| 0 <= k < groups@[g as int].caps@.len() implies caps[base + k]
                == #[trigger] groups@[g as int].caps@[k] by {
                assert(caps[base + k] == caps_of(upto)[base + k]);
            }
        }
        let mut k: usize = 0;
        while k < groups[g as usize].caps.len()
            invariant
                g < groups@.len(),
                groups == &manifest.cap_groups,
                caps == caps_of(manifest.cap_groups@),
                wanted == (|c: Cap| claims(c, alias@)),
                k <= groups@[g as int].caps@.len(),
                base + groups@[g as int].caps@.len() <= caps.len(),
                forall|q: int|
                    0 <= q < groups@[g as int].caps@.len() ==> caps[base + q]
                        == #[trigger] groups@[g as int].caps@[q],
                forall|j: int| 0 <= j < base + k ==> !claims(#[trigger] caps[j], alias@),
            decreases groups@[g as int].caps@.len() - k,
        {
            let cap = &groups[g].caps[k];
            assert(caps[base + k] == *cap);
            if has_text(&cap.aliases, alias) {
                assert(first_at(caps, base + k, wanted));
                return Some(cap);
            }
            k = k + 1;
        }
        g = g + 1;
    }
    assert(groups@.subrange(0, groups@.len() as int) =~= groups@);
    None
}

/// A cap to hint at: not the identity, and with a name.
pub open spec fn is_hintable(cap: Cap) -> bool {
    !claims(cap, "identity"@) && cap.aliases@.len() > 0
}

/// The name to run a fresh install by: the first name of the first cap that is
/// not the identity and has one.
pub fn run_alias(manifest: &CapManifest) -> (r: Option<String>)
    ensures
        ({
            let caps = caps_of(manifest.cap_groups@);
            let wanted = |c: Cap| is_hintable(c);
            match r {
                Some(alias) => exists|i: int| #[trigger]
                    first_at(caps, i, wanted) && alias@ == caps[i].aliases@[0]@,
                None => forall|j: int| 0 <= j < caps.len() ==> !is_hintable(#[trigger] caps[j]),
            }
        }),
{
    let ghost caps = caps_of(manifest.cap_groups@);
    let ghost wanted = |c: Cap| is_hintable(c);
    let groups = &manifest.cap_groups;
    let mut g: usize = 0;
    assert(groups@.subrange(0, 0) =~= Seq::<CapGroup>::empty());
    while g < groups.len()
        invariant
            g <= groups@.len(),
            groups == &manifest.cap_groups,
            caps == caps_of(groups@),
            wanted == (|c: Cap| is_hintable(c)),
            caps_of(groups@.subrange(0, g as int)).len() <= caps.len(),
            forall|j: int|
                0 <= j < caps_of(groups@.subrange(0, g as int)).len() ==> !is_hintable(
                    #[trigger] caps[j],
                ),
        decreases groups@.len() - g,
    {
        let ghost base = caps_of(groups@.subrange(0, g as int)).len();
        let ghost upto = groups@.subrange(0, g + 1);
        assert(upto.drop_last() =~= groups@.subrange(0, g as int));
        proof {
            lemma_caps_prefix(groups@, g + 1);
            assert(caps_of(upto).len() == base + groups@[g as int].caps@.len());
            assert forall|k: int| 0 <= k < groups@[g as int].caps@.len() implies caps[base + k]
                == #[trigger] groups@[g as int].caps@[k] by {
                assert(caps[base + k] == caps_of(upto)[base + k]);
            }
        }
        let mut k: usize = 0;
        while k < groups[g as usize].caps.len()
            invariant
                g < groups@.len(),
                groups == &manifest.cap_groups,
                caps == caps_of(manifest.cap_groups@),
                wanted == (|c: Cap| is_hintable(c)),
                k <= groups@[g as int].caps@.len(),
                base + groups@[g as int].caps@.len() <= caps.len(),
                forall|q: int|
                    0 <= q < groups@[g as int].caps@.len() ==> caps[base + q]
                        == #[trigger] groups@[g as int].caps@[q],
                forall|j: int| 0 <= j < base + k ==> !is_hintable(#[trigger] caps[j]),
            decreases groups@[g as int].caps@.len() - k,
        {
            let cap = &groups[g].caps[k];
            assert(caps[base + k] == *cap);
            if !has_text(&cap.aliases, "identity") && cap.aliases.len() > 0 {
                assert(first_at(caps, base + k, wanted));
                return Some(cap.aliases[0].clone());
            }
            k = k + 1;
        }
        g = g + 1;
    }
    assert(groups@.subrange(0, groups@.len() as int) =~= groups@);
    None
}

/// The cap that a name stands for, in canonical form where it is a cap URN.
pub open spec fn canonical_target(target: Seq<char>) -> Seq<char> {
    match cap_parse(target) {
        Some(tags) => cap_text(tags),
        None => target,
    }
}

/// The fabric gives the name to another cap.
pub open spec fn taken(dev_urn: Seq<char>, target: Option<Seq<char>>) -> bool {
    match target {
        Some(t) => canonical_target(t) != dev_urn,
        None => false,
    }
}

/// Checks that no name of a cap under development already stands for another
/// cap in the fabric. `resolved` holds what the fabric says of each of the
/// cap's names. The first name that is taken is the one in the error.
pub fn check_no_fabric_conflict(cap: &Cap, resolved: &Vec<Option<String>>) -> (r: Result<
    (),
    DevError,
>)
    requires
        resolved@.len() == cap.aliases@.len(),
    ensures
        ({
            let dev_urn = cap_text(cap.urn@);
            match r {
                Ok(()) => forall|i: int|
                    0 <= i < resolved@.len() ==> !taken(dev_urn, opt_text(#[trigger] resolved@[i])),
                Err(DevError::FabricConflict { alias, dev_urn: d, fabric_urn }) => {
                    &&& d@ == dev_urn
                    &&& exists|i: int|
                        {
                            &&& 0 <= i < resolved@.len()
                            &&& taken(dev_urn, opt_text(#[trigger] resolved@[i]))
                            &&& fabric_urn@ == canonical_target(resolved@[i]->0@)
                            &&& alias@ == cap.aliases@[i]@
                            &&& forall|j: int|
                                0 <= j < i ==> !taken(dev_urn, opt_text(#[trigger] resolved@[j]))
                        }
                },
                Err(_) => false,
            }
        }),
{
    let dev_urn = cap.urn.to_string();
    let mut i: usize = 0;
    while i < resolved.len()
        invariant
            i <= resolved@.len(),
            resolved@.len() == cap.aliases@.len(),
            dev_urn@ == cap_text(cap.urn@),
            forall|j: int|
                0 <= j < i ==> !taken(dev_urn@, opt_text(#[trigger] resolved@[j])),
        decreases resolved@.len() - i,
    {
        match &resolved[i] {
            Some(target) => {
                let fabric_urn = match CapUrn::from_string(target) {
                    Ok(u) => u.to_string(),
                    Err(_) => target.clone(),
                };
                if !same_text(&fabric_urn, &dev_urn) {
                    assert(taken(dev_urn@, opt_text(resolved@[i as int])));
                    return Err(
                        DevError::FabricConflict {
                            alias: cap.aliases[i].clone(),
                            dev_urn,
                            fabric_urn,
                        },
                    );
                }
            },
            None => {},
        }
        i = i + 1;
    }
    Ok(())
}

/// Law: a development install lies below the folder of development installs,
/// whatever the channel, where its name and version are relative.
pub proof fn law_dev_installs_lie_under_dev(
    user_cartridge_dir: Seq<char>,
    registry_version: u32,
    channel: CartridgeChannel,
    name: Seq<char>,
    version: Seq<char>,
)
    requires
        !begins(name, "/"@),
        !begins(version, "/"@),
    ensures
        begins(
            version_dir_of(user_cartridge_dir, registry_version, channel, name, version),
            dev_root_of(user_cartridge_dir, registry_version),
        ),
{
    reveal_strlit("/");
    reveal_strlit("release");
    reveal_strlit("nightly");
    assert(channel.name()[0] != '/');
    if begins(channel.name(), "/"@) {
        assert(channel.name().subrange(0, 1)[0] == "/"@[0]);
    }
    let root = dev_root_of(user_cartridge_dir, registry_version);
    let one = below(root, channel.name());
    let two = below(one, name);
    let three = below(two, version);
    lemma_below_begins(root, channel.name());
    lemma_below_begins(one, name);
    lemma_below_begins(two, version);
    assert(two.subrange(0, root.len() as int) =~= one.subrange(0, root.len() as int));
    assert(three.subrange(0, root.len() as int) =~= two.subrange(0, root.len() as int));
}

/// A path below another begins with it.
proof fn lemma_below_begins(base: Seq<char>, part: Seq<char>)
    requires
        !begins(part, "/"@),
    ensures
        begins(below(base, part), base),
{
    assert(below(base, part).subrange(0, base.len() as int) =~= base);
}

/// Law: a good name stays below the folder that it is scaffolded in.
pub proof fn law_scaffold_stays_below_parent(parent_dir: Seq<char>, name: Seq<char>)
    requires
        is_cartridge_name(name),
    ensures
        begins(below(parent_dir, name), parent_dir),
        ends(below(parent_dir, name), name),
        forall|i: int| 0 <= i < name.len() ==> #[trigger] name[i] != '/',
{
    reveal_strlit("/");
    assert(name[0] != '/');
    if begins(name, "/"@) {
        assert(name.subrange(0, 1)[0] == "/"@[0]);
    }
    lemma_below_begins(parent_dir, name);
    let p = below(parent_dir, name);
    assert(p.subrange(p.len() - name.len(), p.len() as int) =~= name);
}

/// Law: the caps of a cartridge are those of its groups, group by group.
pub proof fn law_caps_are_those_of_the_groups(a: Seq<CapGroup>, b: Seq<CapGroup>, g: CapGroup)
    ensures
        caps_of(a + b) == caps_of(a) + caps_of(b),
        caps_of(seq![g]) == g.caps@,
        caps_of(Seq::empty()).len() == 0,
    decreases b.len(),
{
    reveal_with_fuel(caps_of, 2);
    assert(seq![g].drop_last() =~= Seq::<CapGroup>::empty());
    assert(caps_of(seq![g]) =~= g.caps@);
    if b.len() == 0 {
        assert(a + b =~= a);
        assert(caps_of(a) + caps_of(b) =~= caps_of(a));
    } else {
        law_caps_are_those_of_the_groups(a, b.drop_last(), g);
        assert((a + b).drop_last() =~= a + b.drop_last());
        assert((a + b).last() == b.last());
        assert(caps_of(a + b) =~= caps_of(a) + caps_of(b));
    }
}

/// Law: a name is free for a cap where the fabric does not know it, or knows it
/// for the same cap in whatever form; it is taken where it knows it for another.
pub proof fn law_name_is_taken_by_another_cap_only(
    mine: Seq<TagView>,
    target: Seq<char>,
)
    ensures
        !taken(cap_text(mine), None),
        cap_parse(target) == Some(mine) ==> !taken(cap_text(mine), Some(target)),
        cap_parse(target) is Some && cap_text(cap_parse(target)->0) != cap_text(mine) ==> taken(
            cap_text(mine),
            Some(target),
        ),
        cap_parse(target) is None && target != cap_text(mine) ==> taken(
            cap_text(mine),
            Some(target),
        ),
{
}

proof fn lemma_below_plain(base: Seq<char>, part: Seq<char>)
    requires
        base.len() > 0,
        base.last() != '/',
        part.len() > 0,
        part[0] != '/',
    ensures
        below(base, part) == base + "/"@ + part,
{
    reveal_strlit("/");
    if begins(part, "/"@) {
        assert(part.subrange(0, 1)[0] == '/');
    }
    if ends(base, "/"@) {
        assert(base.subrange(base.len() - 1, base.len() as int)[0] == '/');
    }
}

/// Law: a development install lies, below the folder of cartridges, in `dev`,
/// then in the version of the layout, the channel, the name and the version, in
/// this order.
pub proof fn law_dev_install_path(
    dir: Seq<char>,
    registry_version: u32,
    channel: CartridgeChannel,
    name: Seq<char>,
    version: Seq<char>,
)
    requires
        dir.len() > 0,
        dir.last() != '/',
        name.len() > 0,
        name[0] != '/',
        name.last() != '/',
        version.len() > 0,
        version[0] != '/',
    ensures
        version_dir_of(dir, registry_version, channel, name, version) == dir + "/"@ + "dev"@ + "/"@
            + ("v"@ + decimal(registry_version as nat)) + "/"@ + (match channel {
            CartridgeChannel::Release => "release"@,
            CartridgeChannel::Nightly => "nightly"@,
        }) + "/"@ + name + "/"@ + version,
{
    reveal_strlit("/");
    reveal_strlit("dev");
    reveal_strlit("v");
    reveal_strlit("release");
    reveal_strlit("nightly");
    let v = "v"@ + decimal(registry_version as nat);
    lemma_decimal_digits(registry_version as nat);
    assert(v.last() == decimal(registry_version as nat).last());
    let a = dir + "/"@ + "dev"@;
    let b = a + "/"@ + v;
    let c = b + "/"@ + channel.name();
    let d = c + "/"@ + name;
    lemma_below_plain(dir, "dev"@);
    lemma_below_plain(a, v);
    lemma_below_plain(b, channel.name());
    lemma_below_plain(c, name);
    lemma_below_plain(d, version);
}

/// Law: a name that is good for a cartridge is good for an alias and for a tag;
/// and an alias without dots that starts with a letter or a digit is good for a
/// cartridge.
pub proof fn law_good_name_is_good_everywhere(name: Seq<char>)
    ensures
        is_cartridge_name(name) ==> is_alias_name(name) && is_plain(name),
        is_alias_name(name) && !name.contains('.') && name[0] != '-' && name[0] != '_'
            ==> is_cartridge_name(name),
{
    if is_cartridge_name(name) {
        assert forall|i: int| 0 <= i < name.len() implies is_name_char(#[trigger] name[i]) by {
            assert(is_name_start(name[i]) || name[i] == '-' || name[i] == '_');
        }
    }
    if is_alias_name(name) && !name.contains('.') {
        assert forall|i: int| 0 <= i < name.len() implies is_name_start(#[trigger] name[i])
            || name[i] == '-' || name[i] == '_' by {
            assert(is_name_char(name[i]));
            assert(name.contains(name[i]));
        }
    }
}

/// Law: an install holds no environment, cache, repository or compiled file of
/// the developer, and no manifest but its own; a file of another name is copied.
pub proof fn law_scratch_is_left_behind(stem: Seq<char>, name: Seq<char>)
    ensures
        is_scratch(".venv"@),
        is_scratch("__pycache__"@),
        is_scratch(".git"@),
        is_scratch(".pytest_cache"@),
        is_scratch("cartridge.json"@),
        is_scratch(stem + ".pyc"@),
        is_scratch(name) && name.len() > 0 && name[0] != '.' && name[0] != '_' && name[0] != 'c'
            ==> ends(name, ".pyc"@),
{
    reveal_strlit(".venv");
    reveal_strlit("__pycache__");
    reveal_strlit(".git");
    reveal_strlit(".pytest_cache");
    reveal_strlit("cartridge.json");
    reveal_strlit(".pyc");
    let n = stem + ".pyc"@;
    assert(n.subrange(n.len() - ".pyc"@.len(), n.len() as int) =~= ".pyc"@);
    assert(".venv"@[0] == '.');
    assert("__pycache__"@[0] == '_');
    assert(".git"@[0] == '.');
    assert(".pytest_cache"@[0] == '.');
    assert("cartridge.json"@[0] == 'c');
}

} // verus!
