use vstd::prelude::*;

use crate::errors::{AppError, AppErrorView};
use crate::text::{chars_of, contains, owned, push_replacing, push_str, replace_char, str_contains, str_starts_with, string_of_chars};

verus! {

/// What the export asks Photoshop to do: open the PSD, save the merged
/// preview and one PNG per requested layer into the staging directory.
#[derive(Debug, Clone)]
pub struct PhotoshopExportRequest {
    pub source_psd_path: String,
    pub staging_dir: String,
    pub preview_relpath: String,
    pub layers: Vec<PhotoshopLayerExportRequest>,
}

/// One layer that Photoshop is asked to rasterize.
#[derive(Debug, Clone)]
pub struct PhotoshopLayerExportRequest {
    pub id: String,
    pub name: String,
    pub raw_index: usize,
    pub path_indices: Vec<usize>,
    pub expected_visible: bool,
    pub output_png_relpath: String,
}

/// What Photoshop reported back.
#[derive(Debug, Clone)]
pub struct PhotoshopExportResponse {
    pub preview_path: Option<String>,
    pub preview_width: Option<u32>,
    pub preview_height: Option<u32>,
    pub warnings: Vec<String>,
    pub layers: Vec<PhotoshopLayerExportResult>,
}

/// What Photoshop reported for one layer.
#[derive(Debug, Clone)]
pub struct PhotoshopLayerExportResult {
    pub id: String,
    pub exported: bool,
    pub bounds: Option<crate::psd::Bounds>,
    pub width: Option<u32>,
    pub height: Option<u32>,
    pub warnings: Vec<String>,
}

/// How to reach Photoshop: its application path, if given, and how long to
/// wait for automation to become available.
#[derive(Debug, Clone)]
pub struct PhotoshopExportOptions {
    pub photoshop_path: Option<String>,
    pub timeout_sec: u64,
}

/// The host operating systems the export knows how to drive Photoshop on.
#[derive(Debug, Clone, Copy, PartialEq, Eq)]
pub enum HostPlatform {
    Windows,
    MacOs,
    Unsupported,
}

/// The platform named by `std::env::consts::OS`.
pub open spec fn spec_host_platform(host_os: Seq<char>) -> HostPlatform {
    if host_os == "windows"@ {
        HostPlatform::Windows
    } else if host_os == "macos"@ {
        HostPlatform::MacOs
    } else {
        HostPlatform::Unsupported
    }
}

/// Whether two strings hold the same characters.
pub fn str_eq(a: &str, b: &str) -> (r: bool)
    ensures
        r == (a@ == b@),
{
    let av = chars_of(a);
    let bv = chars_of(b);
    if av.len() != bv.len() {
        return false;
    }
    let mut i: usize = 0;
    while i < av.len()
        invariant
            av@ == a@,
            bv@ == b@,
            av@.len() == bv@.len(),
            i <= av@.len(),
            forall|k: int| 0 <= k < i ==> av@[k] == bv@[k],
        decreases av.len() - i,
    {
        if av[i] != bv[i] {
            return false;
        }
        i = i + 1;
    }
    assert(av@ =~= bv@);
    true
}

/// Picks the automation driver for the host operating system.
pub fn host_platform_from(host_os: &str) -> (p: HostPlatform)
    ensures
        p == spec_host_platform(host_os@),
{
    if str_eq(host_os, "windows") {
        HostPlatform::Windows
    } else if str_eq(host_os, "macos") {
        HostPlatform::MacOs
    } else {
        HostPlatform::Unsupported
    }
}

/// The message for a denied Automation permission.
pub const PERMISSION_DENIED_MESSAGE: &'static str = "Photoshop Automation permission was denied. Allow the calling app to control Photoshop in System Settings > Privacy & Security > Automation, then retry the export.";

/// The driver output: stdout and stderr joined by a space, or whichever is
/// not empty.
pub open spec fn combined_output(stdout: Seq<char>, stderr: Seq<char>) -> Seq<char> {
    if stdout.len() == 0 {
        stderr
    } else if stderr.len() == 0 {
        stdout
    } else {
        stdout + " "@ + stderr
    }
}

/// The error message for a failed macOS automation driver run.
pub open spec fn spec_macos_failure(stdout: Seq<char>, stderr: Seq<char>) -> Seq<char> {
    let combined = combined_output(stdout, stderr);
    if contains(combined, "(-1743)"@) || contains(combined, "Not authorized to send Apple events"@) {
        PERMISSION_DENIED_MESSAGE@
    } else if contains(combined, "Unable to connect to Photoshop via Apple events within timeout"@) {
        combined
    } else if contains(combined, "Photoshop application does not exist:"@) || contains(
        combined,
        "Photoshop application must be a .app bundle"@,
    ) {
        combined
    } else if contains(combined, "application id \"com.adobe.Photoshop\""@) || contains(
        combined,
        "Can’t get application"@,
    ) || contains(combined, "Application isn’t running"@) {
        "Unable to connect to Adobe Photoshop on macOS. Verify Photoshop is installed, launchable, and that Automation access is allowed. Driver output: "@
            + combined
    } else {
        "macOS Photoshop automation driver failed: "@ + combined
    }
}

/// Maps the output of a failed macOS automation driver to an actionable
/// error message.
pub fn map_macos_driver_failure(stdout: &str, stderr: &str) -> (m: String)
    ensures
        m@ == spec_macos_failure(stdout@, stderr@),
{
    let combined = if stdout.is_empty() {
        owned(stderr)
    } else if stderr.is_empty() {
        owned(stdout)
    } else {
        let mut s = owned(stdout);
        push_str(&mut s, " ");
        push_str(&mut s, stderr);
        s
    };
    let c = combined.as_str();
    if str_contains(c, "(-1743)") || str_contains(c, "Not authorized to send Apple events") {
        return owned(PERMISSION_DENIED_MESSAGE);
    }
    if str_contains(c, "Unable to connect to Photoshop via Apple events within timeout") {
        return combined;
    }
    if str_contains(c, "Photoshop application does not exist:") || str_contains(
        c,
        "Photoshop application must be a .app bundle",
    ) {
        return combined;
    }
    if str_contains(c, "application id \"com.adobe.Photoshop\"") || str_contains(
        c,
        "Can’t get application",
    ) || str_contains(c, "Application isn’t running") {
        let mut m = owned(
            "Unable to connect to Adobe Photoshop on macOS. Verify Photoshop is installed, launchable, and that Automation access is allowed. Driver output: ",
        );
        push_str(&mut m, c);
        return m;
    }
    let mut m = owned("macOS Photoshop automation driver failed: ");
    push_str(&mut m, c);
    m
}

/// `s` without the prefix `p`, when it starts with it.
pub open spec fn strip_prefix(s: Seq<char>, p: Seq<char>) -> Option<Seq<char>> {
    if p.len() <= s.len() && s.subrange(0, p.len() as int) == p {
        Some(s.subrange(p.len() as int, s.len() as int))
    } else {
        None
    }
}

/// The extended-length path prefix `\\?\`.
pub const VERBATIM_PREFIX: &'static str = "\\\\?\\";

/// The extended-length UNC path prefix `\\?\UNC\`.
pub const VERBATIM_UNC_PREFIX: &'static str = "\\\\?\\UNC\\";

/// A path as a JavaScript string body: without the `\\?\` prefix, with
/// forward slashes and escaped double quotes.
pub open spec fn spec_js_path(path: Seq<char>) -> Seq<char> {
    let clean = match strip_prefix(path, VERBATIM_PREFIX@) {
        Some(rest) => rest,
        None => path,
    };
    replace_char(replace_char(clean, '\\', "/"@), '"', "\\\""@)
}

/// Whether every `\` of `s` starts an escaped double quote `\"`.
pub open spec fn backslashes_escape_quotes(s: Seq<char>) -> bool {
    forall|i: int| 0 <= i < s.len() && #[trigger] s[i] == '\\' ==> i + 1 < s.len() && s[i + 1] == '"'
}

proof fn lemma_slashes_leave_no_backslash(s: Seq<char>)
    ensures
        forall|i: int| 0 <= i < replace_char(s, '\\', "/"@).len() ==> #[trigger] replace_char(s, '\\', "/"@)[i] != '\\',
    decreases s.len(),
{
    reveal_strlit("/");
    if s.len() > 0 {
        lemma_slashes_leave_no_backslash(s.drop_last());
        let a = replace_char(s.drop_last(), '\\', "/"@);
        let b = if s.last() == '\\' { "/"@ } else { seq![s.last()] };
        assert(replace_char(s, '\\', "/"@) == a + b);
        assert forall|i: int| 0 <= i < (a + b).len() implies #[trigger] (a + b)[i] != '\\' by {
            if i >= a.len() {
                assert((a + b)[i] == b[i - a.len()]);
            } else {
                assert((a + b)[i] == a[i]);
            }
        }
    }
}

proof fn lemma_escaping_quotes(s: Seq<char>)
    requires
        forall|i: int| 0 <= i < s.len() ==> #[trigger] s[i] != '\\',
    ensures
        backslashes_escape_quotes(replace_char(s, '"', "\\\""@)),
    decreases s.len(),
{
    reveal_strlit("\\\"");
    if s.len() > 0 {
        let p = s.drop_last();
        assert forall|i: int| 0 <= i < p.len() implies #[trigger] p[i] != '\\' by {
            assert(p[i] == s[i]);
        }
        lemma_escaping_quotes(p);
        let a = replace_char(p, '"', "\\\""@);
        let b = if s.last() == '"' { "\\\""@ } else { seq![s.last()] };
        let t = replace_char(s, '"', "\\\""@);
        assert(t == a + b);
        assert(s.last() != '\\');
        assert forall|i: int| 0 <= i < t.len() && #[trigger] t[i] == '\\' implies i + 1 < t.len() && t[i + 1] == '"' by {
            if i < a.len() {
                assert(t[i] == a[i]);
                assert(i + 1 < a.len());
                assert(t[i + 1] == a[i + 1]);
            } else {
                assert(t[i] == b[i - a.len()]);
                assert(b == "\\\""@);
                assert(i == a.len());
                assert(t[i + 1] == b[1]);
            }
        }
    }
}

/// A path written into the export script keeps none of its backslashes:
/// each `\` of the path has become `/`, so the only `\` left in the text
/// are those that escape a double quote.
pub proof fn law_script_paths_have_no_backslashes(path: Seq<char>)
    ensures
        backslashes_escape_quotes(spec_js_path(path)),
{
    let clean = match strip_prefix(path, VERBATIM_PREFIX@) {
        Some(rest) => rest,
        None => path,
    };
    lemma_slashes_leave_no_backslash(clean);
    lemma_escaping_quotes(replace_char(clean, '\\', "/"@));
}

/// Writes a path for use inside a JavaScript string literal.
pub fn js_path(path: &str) -> (s: String)
    ensures
        s@ == spec_js_path(path@),
        backslashes_escape_quotes(s@),
{
    proof {
        law_script_paths_have_no_backslashes(path@);
    }
    let chars = chars_of(path);
    let from: usize = if str_starts_with(path, VERBATIM_PREFIX) {
        4
    } else {
        0
    };
    proof {
        if from == 4 {
            assert(VERBATIM_PREFIX@.len() == 4) by {
                reveal_strlit("\\\\?\\");
            }
        }
        assert(chars@.subrange(0, chars@.len() as int) =~= path@);
    }
    let mut slashed = String::new();
    push_replacing(&mut slashed, &chars, from, '\\', "/");
    let slashed_chars = chars_of(slashed.as_str());
    let mut out = String::new();
    push_replacing(&mut out, &slashed_chars, 0, '"', "\\\"");
    proof {
        assert(slashed_chars@.subrange(0, slashed_chars@.len() as int) =~= slashed_chars@);
    }
    out
}

/// A path as Photoshop scripting expects it: `\\?\UNC\` turned back into
/// `\\`, `\\?\` dropped, and forward slashes.
pub open spec fn spec_photoshop_path_string(raw: Seq<char>) -> Seq<char> {
    let normalized = match strip_prefix(raw, VERBATIM_UNC_PREFIX@) {
        Some(rest) => "\\\\"@ + rest,
        None => match strip_prefix(raw, VERBATIM_PREFIX@) {
            Some(rest) => rest,
            None => raw,
        },
    };
    replace_char(normalized, '\\', "/"@)
}

/// Writes an absolute path for Photoshop scripting.
pub fn photoshop_path_string(raw: &str) -> (s: String)
    ensures
        s@ == spec_photoshop_path_string(raw@),
{
    let normalized: String = if str_starts_with(raw, VERBATIM_UNC_PREFIX) {
        let chars = chars_of(raw);
        proof {
            reveal_strlit("\\\\?\\UNC\\");
        }
        let mut n = owned("\\\\");
        let mut k: usize = 8;
        while k < chars.len()
            invariant
                8 <= k <= chars@.len(),
                chars@ == raw@,
                n@ == "\\\\"@ + raw@.subrange(8, k as int),
            decreases chars.len() - k,
        {
            crate::text::push_char(&mut n, chars[k]);
            k = k + 1;
            assert(n@ =~= "\\\\"@ + raw@.subrange(8, k as int));
        }
        n
    } else if str_starts_with(raw, VERBATIM_PREFIX) {
        let chars = chars_of(raw);
        proof {
            reveal_strlit("\\\\?\\");
        }
        let mut rest: Vec<char> = Vec::new();
        let mut k: usize = 4;
        while k < chars.len()
            invariant
                4 <= k <= chars@.len(),
                chars@ == raw@,
                rest@ == raw@.subrange(4, k as int),
            decreases chars.len() - k,
        {
            rest.push(chars[k]);
            k = k + 1;
            assert(rest@ =~= raw@.subrange(4, k as int));
        }
        string_of_chars(&rest)
    } else {
        owned(raw)
    };
    let nchars = chars_of(normalized.as_str());
    let mut out = String::new();
    push_replacing(&mut out, &nchars, 0, '\\', "/");
    proof {
        assert(nchars@.subrange(0, nchars@.len() as int) =~= nchars@);
    }
    out
}

/// The Windows Script Host driver that connects to Photoshop over COM and
/// runs the export script.
pub const WINDOWS_SCRIPT_DRIVER: &'static str = r#"
function fail(message) {
    WScript.StdErr.WriteLine(message);
    WScript.Quit(1);
}

var jsxPath = WScript.Arguments.length > 0 ? WScript.Arguments.Item(0) : "";
var timeoutSec = WScript.Arguments.length > 1 ? parseInt(WScript.Arguments.Item(1), 10) : 120;
var photoshopPath = WScript.Arguments.length > 2 ? WScript.Arguments.Item(2) : "";

if (!jsxPath) {
    fail("Photoshop JSX script path was not provided.");
}

var filesystem = new ActiveXObject("Scripting.FileSystemObject");
if (!filesystem.FileExists(jsxPath)) {
    fail("Photoshop JSX script not found: " + jsxPath);
}

if (photoshopPath) {
    if (!filesystem.FileExists(photoshopPath)) {
        fail("Photoshop executable not found: " + photoshopPath);
    }
    var shell = new ActiveXObject("WScript.Shell");
    shell.Run('"' + photoshopPath + '"', 0, false);
}

var deadline = new Date().getTime() + Math.max(isNaN(timeoutSec) ? 120 : timeoutSec, 1) * 1000;
var app = null;
while (new Date().getTime() < deadline) {
    try {
        app = new ActiveXObject("Photoshop.Application");
        break;
    } catch (error) {
        WScript.Sleep(500);
    }
}

if (!app) {
    fail("Unable to connect to Photoshop COM automation within timeout.");
}

try {
    app.DoJavaScriptFile(jsxPath);
} catch (error) {
    fail("Photoshop script execution failed: " + error.message);
}
"#;

/// The AppleScript driver that launches Photoshop and runs the export script
/// through Apple events.
pub const MACOS_SCRIPT_DRIVER: &'static str = r#"
on fail(messageText)
    error messageText number 1
end fail

on launchPhotoshop(photoshopPath)
    if photoshopPath is not "" then
        do shell script "/usr/bin/open -a " & quoted form of photoshopPath
    else
        tell application id "com.adobe.Photoshop" to activate
    end if
end launchPhotoshop

on waitForPhotoshop(timeoutSeconds)
    set deadlineDate to (current date) + timeoutSeconds
    set lastErrorMessage to ""
    repeat while (current date) is less than deadlineDate
        try
            tell application id "com.adobe.Photoshop"
                activate
                do javascript "1;"
            end tell
            return
        on error errMsg number errNum
            set lastErrorMessage to errMsg & " (" & errNum & ")"
            delay 0.5
        end try
    end repeat
    fail("Unable to connect to Photoshop via Apple events within timeout. Last error: " & lastErrorMessage)
end waitForPhotoshop

on run argv
    if (count of argv) < 2 then
        fail("Photoshop JSX script path and timeout must be provided.")
    end if

    set jsxPath to item 1 of argv
    set timeoutSec to (item 2 of argv) as integer
    set photoshopPath to ""
    if (count of argv) ≥ 3 then
        set photoshopPath to item 3 of argv
    end if

    if jsxPath is "" then
        fail("Photoshop JSX script path was not provided.")
    end if

    set jsxFile to POSIX file jsxPath

    if photoshopPath is not "" then
        set photoshopBundle to POSIX file photoshopPath
        tell application "System Events"
            if not (exists disk item photoshopBundle) then
                fail("Photoshop application does not exist: " & photoshopPath)
            end if
        end tell
    end if

    launchPhotoshop(photoshopPath)
    waitForPhotoshop(timeoutSec)

    try
        tell application id "com.adobe.Photoshop"
            activate
            do javascript of file jsxFile
        end tell
    on error errMsg number errNum
        fail("Photoshop script execution failed: " & errMsg & " (" & errNum & ")")
    end try
end run
"#;

/// The Windows automation driver script.
pub fn windows_script_driver() -> (s: &'static str)
    ensures
        s@ == WINDOWS_SCRIPT_DRIVER@,
{
    WINDOWS_SCRIPT_DRIVER
}

/// The macOS automation driver script.
pub fn macos_script_driver() -> (s: &'static str)
    ensures
        s@ == MACOS_SCRIPT_DRIVER@,
{
    MACOS_SCRIPT_DRIVER
}

/// The export script up to the preview path.
pub const JSX_BODY_HEAD: &'static str = r#"

function readText(path) {
    var file = new File(path);
    file.encoding = "UTF8";
    if (!file.open("r")) {
        throw new Error("Unable to open file for read: " + path);
    }
    var text = file.read();
    file.close();
    return text;
}

function writeText(path, text) {
    var file = new File(path);
    if (file.parent && !file.parent.exists) {
        file.parent.create();
    }
    file.encoding = "UTF8";
    if (!file.open("w")) {
        throw new Error("Unable to open file for write: " + path);
    }
    file.write(text);
    file.close();
}

function ensureParentFolder(file) {
    var current = file.parent;
    if (!current) {
        return;
    }
    var stack = [];
    while (current && !current.exists) {
        stack.push(current);
        current = current.parent;
    }
    for (var index = stack.length - 1; index >= 0; index--) {
        stack[index].create();
    }
}

function jsonQuote(value) {
    if (value === null || value === undefined) {
        return "null";
    }
    var text = String(value);
    text = text.replace(/\\/g, "\\\\");
    text = text.replace(/"/g, '\\"');
    text = text.replace(/\r/g, "\\r");
    text = text.replace(/\n/g, "\\n");
    text = text.replace(/\t/g, "\\t");
    return '"' + text + '"';
}

function toJson(value) {
    if (value === null || value === undefined) {
        return "null";
    }
    if (typeof value === "string") {
        return jsonQuote(value);
    }
    if (typeof value === "number" || typeof value === "boolean") {
        return String(value);
    }
    if (value instanceof Array) {
        var items = [];
        for (var index = 0; index < value.length; index++) {
            items.push(toJson(value[index]));
        }
        return "[" + items.join(",") + "]";
    }
    var pairs = [];
    for (var key in value) {
        if (!value.hasOwnProperty(key)) {
            continue;
        }
        pairs.push(jsonQuote(key) + ":" + toJson(value[key]));
    }
    return "{" + pairs.join(",") + "}";
}

function parseJson(text) {
    return eval("(" + text + ")");
}

function asPixels(value) {
    if (value === null || value === undefined) {
        return 0;
    }
    if (typeof value === "number") {
        return Math.round(value);
    }
    if (value.as) {
        return Math.round(value.as("px"));
    }
    return Math.round(Number(value));
}

function layerCollection(container) {
    if (container.layers !== undefined) {
        return container.layers;
    }
    return [];
}

function resolveLayerByPath(documentRef, pathIndices) {
    var current = documentRef;
    for (var index = 0; index < pathIndices.length; index++) {
        var layers = layerCollection(current);
        current = layers[pathIndices[index]];
        if (!current) {
            throw new Error("Unable to resolve layer path index " + pathIndices[index] + " at depth " + index);
        }
    }
    return current;
}

function flattenLayersBottomUp(container) {
    var result = [];
    var layers = layerCollection(container);
    for (var i = layers.length - 1; i >= 0; i--) {
        var layer = layers[i];
        if (layer.typename === "LayerSet") {
            result.push(null);
            var children = flattenLayersBottomUp(layer);
            for (var j = 0; j < children.length; j++) {
                result.push(children[j]);
            }
            result.push(layer);
        } else {
            result.push(layer);
        }
    }
    return result;
}

var flatLayerMap = null;

function buildFlatLayerMap(documentRef) {
    flatLayerMap = flattenLayersBottomUp(documentRef);
}

function resolveLayer(documentRef, pathIndices, rawIndex) {
    try {
        return resolveLayerByPath(documentRef, pathIndices);
    } catch (pathError) {
        if (flatLayerMap && rawIndex !== undefined && rawIndex !== null && rawIndex < flatLayerMap.length) {
            var layer = flatLayerMap[rawIndex];
            if (layer) {
                return layer;
            }
        }
        throw pathError;
    }
}

function hideAllLayers(container) {
    var layers = layerCollection(container);
    for (var index = 0; index < layers.length; index++) {
        hideAllLayers(layers[index]);
        layers[index].visible = false;
    }
}

function revealLayerAncestry(layer) {
    var current = layer;
    while (current && current.typename !== "Document") {
        current.visible = true;
        current = current.parent;
    }
}

function collectBounds(layer) {
    var bounds = layer.bounds;
    return {
        x: asPixels(bounds[0]),
        y: asPixels(bounds[1]),
        width: Math.max(0, asPixels(bounds[2]) - asPixels(bounds[0])),
        height: Math.max(0, asPixels(bounds[3]) - asPixels(bounds[1]))
    };
}

function saveDocumentAsPng(documentRef, relativePath) {
    var outputFile = new File(STAGING_DIR + "/" + relativePath.replace(/\\/g, "/"));
    ensureParentFolder(outputFile);
    var options = new PNGSaveOptions();
    options.interlaced = false;
    documentRef.saveAs(outputFile, options, true, Extension.LOWERCASE);
}

function createLayerExportDocument(sourceDoc, layerBounds, documentName) {
    return app.documents.add(
        UnitValue(Math.max(layerBounds.width, 1), "px"),
        UnitValue(Math.max(layerBounds.height, 1), "px"),
        sourceDoc.resolution,
        documentName,
        NewDocumentMode.RGB,
        DocumentFill.TRANSPARENT
    );
}

function duplicateLayerIntoDocument(sourceDoc, sourceLayer, exportDoc) {
    app.activeDocument = sourceDoc;
    sourceDoc.activeLayer = sourceLayer;
    var placeholderLayer = exportDoc.activeLayer;
    sourceLayer.duplicate(exportDoc, ElementPlacement.PLACEATBEGINNING);
    app.activeDocument = exportDoc;
    var duplicatedLayer = null;
    var layers = layerCollection(exportDoc);
    for (var index = 0; index < layers.length; index++) {
        if (layers[index] != placeholderLayer) {
            duplicatedLayer = layers[index];
            break;
        }
    }
    if (!duplicatedLayer) {
        duplicatedLayer = exportDoc.activeLayer;
    }
    if (placeholderLayer && exportDoc.layers.length > 1) {
        placeholderLayer.remove();
    }
    return duplicatedLayer;
}

function unlockLayerForTransform(layer) {
    try {
        if (layer.isBackgroundLayer) {
            layer.isBackgroundLayer = false;
        }
    } catch (error) {
    }
    try {
        layer.allLocked = false;
    } catch (error) {
    }
    try {
        layer.positionLocked = false;
    } catch (error) {
    }
}

function normalizeLayerPosition(layer) {
    var layerBounds = collectBounds(layer);
    if (layerBounds.x !== 0 || layerBounds.y !== 0) {
        unlockLayerForTransform(layer);
        layer.translate(-layerBounds.x, -layerBounds.y);
    }
}

function cropDocumentToBounds(documentRef, layerBounds) {
    documentRef.crop([
        UnitValue(layerBounds.x, "px"),
        UnitValue(layerBounds.y, "px"),
        UnitValue(layerBounds.x + layerBounds.width, "px"),
        UnitValue(layerBounds.y + layerBounds.height, "px")
    ]);
}

function exportLayerViaIsolatedDocument(sourceDoc, layerRequest, layerBounds) {
    var workingDoc = sourceDoc.duplicate();
    try {
        var targetLayer = resolveLayerByPath(workingDoc, layerRequest.path_indices);
        hideAllLayers(workingDoc);
        revealLayerAncestry(targetLayer);
        cropDocumentToBounds(workingDoc, layerBounds);
        saveDocumentAsPng(workingDoc, layerRequest.output_png_relpath);
    } finally {
        workingDoc.close(SaveOptions.DONOTSAVECHANGES);
    }
}

function exportPreview(sourceDoc, response) {
    var previewDoc = sourceDoc.duplicate();
    try {
        saveDocumentAsPng(previewDoc, ""#;

/// The export script between the two uses of the preview path.
pub const JSX_BODY_MIDDLE: &'static str = r#"");
        response.preview_path = ""#;

/// The export script after the preview path.
pub const JSX_BODY_TAIL: &'static str = r#"";
        response.preview_width = asPixels(previewDoc.width);
        response.preview_height = asPixels(previewDoc.height);
    } finally {
        previewDoc.close(SaveOptions.DONOTSAVECHANGES);
    }
}

function exportLayer(sourceDoc, layerRequest) {
    var result = {
        id: layerRequest.id,
        exported: false,
        bounds: null,
        width: null,
        height: null,
        warnings: []
    };

    var layerBounds = null;
    var exportDoc = null;

    try {
        var targetLayer = resolveLayer(sourceDoc, layerRequest.path_indices, layerRequest.raw_index);
        layerBounds = collectBounds(targetLayer);
        if (layerBounds.width <= 0 || layerBounds.height <= 0) {
            result.warnings.push("layer bounds were empty");
        } else {
            try {
                exportDoc = createLayerExportDocument(sourceDoc, layerBounds, layerRequest.id);
                var duplicatedLayer = duplicateLayerIntoDocument(sourceDoc, targetLayer, exportDoc);
                normalizeLayerPosition(duplicatedLayer);
                saveDocumentAsPng(exportDoc, layerRequest.output_png_relpath);
            } catch (primaryError) {
                if (exportDoc) {
                    exportDoc.close(SaveOptions.DONOTSAVECHANGES);
                    exportDoc = null;
                }
                exportLayerViaIsolatedDocument(sourceDoc, layerRequest, layerBounds);
                result.warnings.push("used isolated-document export fallback because " + primaryError);
            }
            result.exported = true;
            result.bounds = layerBounds;
            result.width = layerBounds.width;
            result.height = layerBounds.height;
        }
    } catch (error) {
        result.warnings.push(String(error));
    } finally {
        if (exportDoc) {
            exportDoc.close(SaveOptions.DONOTSAVECHANGES);
        }
    }

    return result;
}

var response = {
    preview_path: null,
    preview_width: null,
    preview_height: null,
    warnings: [],
    layers: []
};

var request = parseJson(readText(REQUEST_PATH));
var sourceDoc = null;

try {
    app.displayDialogs = DialogModes.NO;
    sourceDoc = app.open(new File(request.source_psd_path));
    buildFlatLayerMap(sourceDoc);
    exportPreview(sourceDoc, response);
    for (var layerIndex = 0; layerIndex < request.layers.length; layerIndex++) {
        response.layers.push(exportLayer(sourceDoc, request.layers[layerIndex]));
    }
} catch (fatalError) {
    response.warnings.push(String(fatalError));
} finally {
    if (sourceDoc) {
        sourceDoc.close(SaveOptions.DONOTSAVECHANGES);
    }
    writeText(RESPONSE_PATH, toJson(response));
}
"#;

/// The Photoshop export script: the request, response and staging paths,
/// then the exporter with the preview path (forward slashes) filled in.
pub open spec fn spec_jsx_script(
    request_path: Seq<char>,
    response_path: Seq<char>,
    staging_dir: Seq<char>,
    preview_relpath: Seq<char>,
) -> Seq<char> {
    let preview = replace_char(preview_relpath, '\\', "/"@);
    "\nvar REQUEST_PATH = \""@ + spec_js_path(request_path) + "\";\nvar RESPONSE_PATH = \""@
        + spec_js_path(response_path) + "\";\nvar STAGING_DIR = \""@ + spec_js_path(staging_dir)
        + "\";\n"@ + JSX_BODY_HEAD@ + preview + JSX_BODY_MIDDLE@ + preview + JSX_BODY_TAIL@
}

/// Builds the Photoshop export script for a request.
pub fn build_jsx_script(
    request_path: &str,
    response_path: &str,
    staging_dir: &str,
    request: &PhotoshopExportRequest,
) -> (s: String)
    ensures
        s@ == spec_jsx_script(request_path@, response_path@, staging_dir@, request.preview_relpath@),
{
    let rel = chars_of(request.preview_relpath.as_str());
    let mut preview = String::new();
    push_replacing(&mut preview, &rel, 0, '\\', "/");
    proof {
        assert(rel@.subrange(0, rel@.len() as int) =~= rel@);
    }
    let mut s = owned("\nvar REQUEST_PATH = \"");
    let a = js_path(request_path);
    push_str(&mut s, a.as_str());
    push_str(&mut s, "\";\nvar RESPONSE_PATH = \"");
    let b = js_path(response_path);
    push_str(&mut s, b.as_str());
    push_str(&mut s, "\";\nvar STAGING_DIR = \"");
    let c = js_path(staging_dir);
    push_str(&mut s, c.as_str());
    push_str(&mut s, "\";\n");
    push_str(&mut s, JSX_BODY_HEAD);
    push_str(&mut s, preview.as_str());
    push_str(&mut s, JSX_BODY_MIDDLE);
    push_str(&mut s, preview.as_str());
    push_str(&mut s, JSX_BODY_TAIL);
    s
}

/// Rejects a macOS Photoshop path that does not exist or whose extension is
/// not `app` (in any letter case). `exists` and `extension` describe the path
/// as the file system sees it.
pub fn validate_macos_photoshop_path(display: &str, exists: bool, extension: &str) -> (r: Result<(), AppError>)
    ensures
        !exists ==> (r matches Err(e) && e@ == AppErrorView::Photoshop("Photoshop application does not exist: "@ + display@)),
        exists && !crate::text::eq_ignore_ascii_case(extension@, "app"@) ==> (r matches Err(e) && e@ == AppErrorView::Photoshop(
            "Photoshop application must be a .app bundle on macOS: "@ + display@,
        )),
        exists && crate::text::eq_ignore_ascii_case(extension@, "app"@) ==> r is Ok,
{
    if !exists {
        let mut m = owned("Photoshop application does not exist: ");
        push_str(&mut m, display);
        return Err(AppError::Photoshop(m));
    }
    if !crate::text::str_eq_ignore_ascii_case(extension, "app") {
        let mut m = owned("Photoshop application must be a .app bundle on macOS: ");
        push_str(&mut m, display);
        return Err(AppError::Photoshop(m));
    }
    Ok(())
}

/// Rejects a Windows Photoshop path that does not exist.
pub fn validate_windows_photoshop_path(display: &str, exists: bool) -> (r: Result<(), AppError>)
    ensures
        !exists ==> (r matches Err(e) && e@ == AppErrorView::Photoshop("Photoshop executable does not exist: "@ + display@)),
        exists ==> r is Ok,
{
    if !exists {
        let mut m = owned("Photoshop executable does not exist: ");
        push_str(&mut m, display);
        return Err(AppError::Photoshop(m));
    }
    Ok(())
}

} // verus!
