//! SAM (Segment Anything Model) integration: execution providers, band
//! selection and prompts.

use vstd::prelude::*;

use crate::json::Json;
use crate::text::{push_decimal, same_text};

verus! {

// ----------------------------------------------------------------------------
// Execution providers
// ----------------------------------------------------------------------------

/// Execution provider for inference: which hardware accelerator is used.
#[derive(Clone, Copy, Debug, PartialEq, Eq, Structural)]
pub enum ExecutionProvider {
    /// CPU inference (always available, slowest).
    Cpu,
    /// NVIDIA CUDA acceleration.
    Cuda,
    /// AMD ROCm acceleration.
    Rocm,
    /// Windows DirectML acceleration.
    DirectML,
    /// Apple CoreML acceleration.
    CoreML,
}

impl Default for ExecutionProvider {
    fn default() -> (provider: Self)
        ensures
            provider == ExecutionProvider::Cpu,
    {
        ExecutionProvider::Cpu
    }
}

/// The provider that a configuration value in lower case stands for.
pub open spec fn provider_of(lower: Seq<char>) -> Option<ExecutionProvider> {
    if lower == "cpu"@ {
        Some(ExecutionProvider::Cpu)
    } else if lower == "cuda"@ {
        Some(ExecutionProvider::Cuda)
    } else if lower == "rocm"@ {
        Some(ExecutionProvider::Rocm)
    } else if lower == "directml"@ {
        Some(ExecutionProvider::DirectML)
    } else if lower == "coreml"@ {
        Some(ExecutionProvider::CoreML)
    } else {
        None
    }
}

impl ExecutionProvider {
    /// Parse from string (for CLI/env config), in any case of letters.
    pub fn from_str(s: &str) -> (r: Option<Self>)
        ensures
            r == provider_of(crate::text::lowercased(s@)),
    {
        let lower = s.to_lowercase();
        if same_text(lower.as_str(), "cpu") {
            Some(ExecutionProvider::Cpu)
        } else if same_text(lower.as_str(), "cuda") {
            Some(ExecutionProvider::Cuda)
        } else if same_text(lower.as_str(), "rocm") {
            Some(ExecutionProvider::Rocm)
        } else if same_text(lower.as_str(), "directml") {
            Some(ExecutionProvider::DirectML)
        } else if same_text(lower.as_str(), "coreml") {
            Some(ExecutionProvider::CoreML)
        } else {
            None
        }
    }

    /// The display name.
    pub open spec fn display_name(self) -> Seq<char> {
        match self {
            ExecutionProvider::Cpu => "CPU"@,
            ExecutionProvider::Cuda => "CUDA"@,
            ExecutionProvider::Rocm => "ROCm"@,
            ExecutionProvider::DirectML => "DirectML"@,
            ExecutionProvider::CoreML => "CoreML"@,
        }
    }

    /// Get display name.
    pub fn name(&self) -> (name: &'static str)
        ensures
            name@ == self.display_name(),
    {
        match self {
            ExecutionProvider::Cpu => "CPU",
            ExecutionProvider::Cuda => "CUDA",
            ExecutionProvider::Rocm => "ROCm",
            ExecutionProvider::DirectML => "DirectML",
            ExecutionProvider::CoreML => "CoreML",
        }
    }
}

/// The display name of a provider parses back to the provider.
pub proof fn lemma_provider_name_parses(provider: ExecutionProvider)
    ensures
        provider_of(crate::text::lowercased(provider.display_name())) == Some(provider),
{
    let lower = crate::text::lowercased(provider.display_name());
    reveal_strlit("CPU");
    reveal_strlit("CUDA");
    reveal_strlit("ROCm");
    reveal_strlit("DirectML");
    reveal_strlit("CoreML");
    reveal_strlit("cpu");
    reveal_strlit("cuda");
    reveal_strlit("rocm");
    reveal_strlit("directml");
    reveal_strlit("coreml");
    assert(crate::text::is_ascii_text(provider.display_name()));
    match provider {
        ExecutionProvider::Cpu => {
            assert(lower =~= "cpu"@);
        },
        ExecutionProvider::Cuda => {
            assert(lower =~= "cuda"@);
        },
        ExecutionProvider::Rocm => {
            assert(lower =~= "rocm"@);
            assert("rocm"@[0] != "cuda"@[0]);
        },
        ExecutionProvider::DirectML => {
            assert(lower =~= "directml"@);
        },
        ExecutionProvider::CoreML => {
            assert(lower =~= "coreml"@);
        },
    }
}

// ----------------------------------------------------------------------------
// Band selection
// ----------------------------------------------------------------------------

/// The bands of an image that stand for red, green and blue.
#[derive(Clone, Copy, Debug, PartialEq, Eq, Structural)]
pub struct SamBands {
    pub red: u32,
    pub green: u32,
    pub blue: u32,
}

/// A band index that a configuration names, or the default.
pub open spec fn configured_band(bands: Json, key: Seq<char>, default: u64) -> u32 {
    match bands.field(key) {
        Some(value) => match value.unsigned_value() {
            Some(index) => index as u32,
            None => default as u32,
        },
        None => default as u32,
    }
}

/// The bands that a configuration selects: the first three where it names none.
pub open spec fn configured_bands(config: Option<Json>) -> SamBands {
    match config {
        Some(cfg) => match cfg.field("bands"@) {
            Some(bands) => SamBands {
                red: configured_band(bands, "red"@, 0),
                green: configured_band(bands, "green"@, 1),
                blue: configured_band(bands, "blue"@, 2),
            },
            None => SamBands { red: 0, green: 1, blue: 2 },
        },
        None => SamBands { red: 0, green: 1, blue: 2 },
    }
}

fn read_band(bands: &Json, key: &str, default: u64) -> (index: u32)
    ensures
        index == configured_band(*bands, key@, default),
{
    match bands.get(key) {
        Some(value) => match value.as_u64() {
            Some(index) => index as u32,
            None => default as u32,
        },
        None => default as u32,
    }
}

/// The lesser of two band indices.
pub open spec fn lesser(a: u32, b: u32) -> u32 {
    if a <= b {
        a
    } else {
        b
    }
}

impl SamBands {
    /// The first three bands.
    pub fn default_rgb() -> (bands: Self)
        ensures
            bands == (SamBands { red: 0, green: 1, blue: 2 }),
    {
        SamBands { red: 0, green: 1, blue: 2 }
    }

    /// The bands that a configuration selects.
    pub fn from_config(config: Option<&Json>) -> (bands: Self)
        ensures
            bands == configured_bands(
                match config {
                    Some(value) => Some(*value),
                    None => None,
                },
            ),
    {
        match config {
            Some(cfg) => match cfg.get("bands") {
                Some(bands) => SamBands {
                    red: read_band(bands, "red", 0),
                    green: read_band(bands, "green", 1),
                    blue: read_band(bands, "blue", 2),
                },
                None => SamBands::default_rgb(),
            },
            None => SamBands::default_rgb(),
        }
    }

    /// Whether these are the first three bands.
    pub open spec fn is_default(self) -> bool {
        self.red == 0 && self.green == 1 && self.blue == 2
    }

    /// Whether these are the first three bands.
    pub fn is_default_rgb(&self) -> (r: bool)
        ensures
            r == self.is_default(),
    {
        self.red == 0 && self.green == 1 && self.blue == 2
    }

    /// The key of an embedding: the image and its bands.
    pub open spec fn key(self, image_id: Seq<char>) -> Seq<char> {
        image_id + seq!['#'] + crate::text::decimal(self.red as nat) + seq![':']
            + crate::text::decimal(self.green as nat) + seq![':'] + crate::text::decimal(
            self.blue as nat,
        )
    }

    /// The key under which the embedding of an image with these bands is kept.
    pub fn embedding_key(&self, image_id: &str) -> (out: String)
        ensures
            out@ == self.key(image_id@),
    {
        let mut out = image_id.to_owned();
        out.push('#');
        push_decimal(&mut out, self.red as u64);
        out.push(':');
        push_decimal(&mut out, self.green as u64);
        out.push(':');
        push_decimal(&mut out, self.blue as u64);
        assert(out@ =~= self.key(image_id@));
        out
    }

    /// These bands, each held at the last band of an image. For an image without
    /// bands, the first three.
    pub open spec fn clamped(self, num_bands: nat) -> SamBands {
        if num_bands == 0 {
            SamBands { red: 0, green: 1, blue: 2 }
        } else {
            let last = (num_bands - 1) as u32;
            SamBands {
                red: lesser(self.red, last),
                green: lesser(self.green, last),
                blue: lesser(self.blue, last),
            }
        }
    }

    /// These bands, each held at the last band of an image.
    pub fn clamp_to_num_bands(&self, num_bands: usize) -> (bands: Self)
        ensures
            bands == self.clamped(num_bands as nat),
    {
        if num_bands == 0 {
            return SamBands::default_rgb();
        }
        let last: u32 = (num_bands - 1) as u32;
        SamBands {
            red: if self.red <= last {
                self.red
            } else {
                last
            },
            green: if self.green <= last {
                self.green
            } else {
                last
            },
            blue: if self.blue <= last {
                self.blue
            } else {
                last
            },
        }
    }
}

/// Clamped bands exist in the image, and clamping them again changes nothing.
pub proof fn lemma_clamped_bands(bands: SamBands, num_bands: nat)
    requires
        0 < num_bands <= u32::MAX,
    ensures
        bands.clamped(num_bands).red < num_bands,
        bands.clamped(num_bands).green < num_bands,
        bands.clamped(num_bands).blue < num_bands,
        bands.clamped(num_bands).clamped(num_bands) == bands.clamped(num_bands),
{
}

proof fn lemma_last_separator(a: Seq<char>, x: Seq<char>, b: Seq<char>, y: Seq<char>, sep: char)
    requires
        a + seq![sep] + x == b + seq![sep] + y,
        !x.contains(sep),
        !y.contains(sep),
    ensures
        a == b,
        x == y,
{
    let s = a + seq![sep] + x;
    let t = b + seq![sep] + y;
    if x.len() < y.len() {
        let k = s.len() - 1 - x.len();
        assert(s[k] == sep);
        assert(t[k] == y[k - b.len() - 1]);
        assert(y.contains(sep));
    } else if y.len() < x.len() {
        let k = t.len() - 1 - y.len();
        assert(t[k] == sep);
        assert(s[k] == x[k - a.len() - 1]);
        assert(x.contains(sep));
    }
    assert(s.len() == a.len() + 1 + x.len());
    assert(t.len() == b.len() + 1 + y.len());
    assert(a =~= s.take(a.len() as int));
    assert(b =~= t.take(b.len() as int));
    assert(x =~= y) by {
        assert forall|i: int| 0 <= i < x.len() implies x[i] == y[i] by {
            assert(s[a.len() + 1 + i] == t[b.len() + 1 + i]);
        }
    }
}

proof fn lemma_decimal_without(n: nat, c: char)
    requires
        !('0' <= c && c <= '9'),
    ensures
        !crate::text::decimal(n).contains(c),
{
    crate::text::lemma_decimal_digits(n);
    if crate::text::decimal(n).contains(c) {
        let k = choose|k: int|
            0 <= k < crate::text::decimal(n).len() && crate::text::decimal(n)[k] == c;
        assert('0' <= crate::text::decimal(n)[k] <= '9');
    }
}

/// Embedding keys tell images and band selections apart: two keys are the same
/// only for the same image and the same bands.
pub proof fn lemma_embedding_keys_are_unique(
    a: SamBands,
    image_a: Seq<char>,
    b: SamBands,
    image_b: Seq<char>,
)
    requires
        a.key(image_a) == b.key(image_b),
    ensures
        a == b,
        image_a == image_b,
{
    let ra = crate::text::decimal(a.red as nat);
    let ga = crate::text::decimal(a.green as nat);
    let ba = crate::text::decimal(a.blue as nat);
    let rb = crate::text::decimal(b.red as nat);
    let gb = crate::text::decimal(b.green as nat);
    let bb = crate::text::decimal(b.blue as nat);
    lemma_decimal_without(a.red as nat, '#');
    lemma_decimal_without(a.green as nat, ':');
    lemma_decimal_without(a.blue as nat, ':');
    lemma_decimal_without(b.red as nat, '#');
    lemma_decimal_without(b.green as nat, ':');
    lemma_decimal_without(b.blue as nat, ':');
    let head_a = image_a + seq!['#'] + ra;
    let head_b = image_b + seq!['#'] + rb;
    lemma_last_separator(head_a + seq![':'] + ga, ba, head_b + seq![':'] + gb, bb, ':');
    lemma_last_separator(head_a, ga, head_b, gb, ':');
    lemma_last_separator(image_a, ra, image_b, rb, '#');
    crate::text::lemma_decimal_injective(a.red as nat, b.red as nat);
    crate::text::lemma_decimal_injective(a.green as nat, b.green as nat);
    crate::text::lemma_decimal_injective(a.blue as nat, b.blue as nat);
}

// ----------------------------------------------------------------------------
// Prompts
// ----------------------------------------------------------------------------

/// What is wrong with the prompts of a request.
#[derive(Clone, Copy, Debug, PartialEq, Eq, Structural)]
pub enum PromptError {
    NoPrompt,
    PointsNotAnArray,
    PointWithoutX,
    PointWithoutY,
    PointWithoutLabel,
    BoxNotAnArray,
    BoxLength,
    /// The element of the box that is not a number.
    BoxElement(u32),
}

impl PromptError {
    /// What a user is told.
    pub open spec fn text(self) -> Seq<char> {
        match self {
            PromptError::NoPrompt => "At least one prompt (points or box) is required"@,
            PromptError::PointsNotAnArray => "points must be an array"@,
            PromptError::PointWithoutX => "point missing x"@,
            PromptError::PointWithoutY => "point missing y"@,
            PromptError::PointWithoutLabel => "point missing label"@,
            PromptError::BoxNotAnArray => "box must be an array [x1, y1, x2, y2]"@,
            PromptError::BoxLength => "box must have exactly 4 elements"@,
            PromptError::BoxElement(i) => "box["@ + crate::text::decimal(i as nat)
                + "] must be a number"@,
        }
    }

    /// What a user is told.
    pub fn message(&self) -> (out: String)
        ensures
            out@ == self.text(),
    {
        match self {
            PromptError::NoPrompt => "At least one prompt (points or box) is required".to_owned(),
            PromptError::PointsNotAnArray => "points must be an array".to_owned(),
            PromptError::PointWithoutX => "point missing x".to_owned(),
            PromptError::PointWithoutY => "point missing y".to_owned(),
            PromptError::PointWithoutLabel => "point missing label".to_owned(),
            PromptError::BoxNotAnArray => "box must be an array [x1, y1, x2, y2]".to_owned(),
            PromptError::BoxLength => "box must have exactly 4 elements".to_owned(),
            PromptError::BoxElement(i) => {
                let mut out = "box[".to_owned();
                push_decimal(&mut out, *i as u64);
                out.append("] must be a number");
                out
            },
        }
    }
}

/// Whether a request has points: a list of them that is not empty.
pub open spec fn has_points(inputs: Json) -> bool {
    inputs.field("points"@) matches Some(Json::Array(points)) && points@.len() > 0
}

/// Whether a request has a box: a value other than null.
pub open spec fn has_box(inputs: Json) -> bool {
    inputs.field("box"@) matches Some(value) && !(value is Null)
}

/// Checks that a request has at least one prompt.
pub fn validate_inputs(inputs: &Json) -> (r: Result<(), PromptError>)
    ensures
        match r {
            Ok(()) => has_points(*inputs) || has_box(*inputs),
            Err(error) => error == PromptError::NoPrompt && !has_points(*inputs) && !has_box(
                *inputs,
            ),
        },
{
    let points = match inputs.get("points") {
        Some(Json::Array(list)) => list.len() > 0,
        _ => false,
    };
    let boxed = match inputs.get("box") {
        Some(value) => !value.is_null(),
        None => false,
    };
    if !points && !boxed {
        Err(PromptError::NoPrompt)
    } else {
        Ok(())
    }
}

/// Whether a member of an object is a number.
pub open spec fn has_number(object: Json, key: Seq<char>) -> bool {
    object.field(key) matches Some(value) && value is Number
}

/// What is wrong with a point, or its label.
pub open spec fn point_label(point: Json) -> Result<i32, PromptError> {
    if !has_number(point, "x"@) {
        Err(PromptError::PointWithoutX)
    } else if !has_number(point, "y"@) {
        Err(PromptError::PointWithoutY)
    } else {
        match point.field("label"@) {
            Some(value) => match value.signed_value() {
                Some(label) => Ok(label as i32),
                None => Err(PromptError::PointWithoutLabel),
            },
            None => Err(PromptError::PointWithoutLabel),
        }
    }
}

/// The labels of points, or what is wrong with the first that is wrong.
pub open spec fn point_labels(points: Seq<Json>) -> Result<Seq<i32>, PromptError>
    decreases points.len(),
{
    if points.len() == 0 {
        Ok(Seq::empty())
    } else {
        match point_labels(points.drop_last()) {
            Err(error) => Err(error),
            Ok(labels) => match point_label(points.last()) {
                Err(error) => Err(error),
                Ok(label) => Ok(labels.push(label)),
            },
        }
    }
}

/// The labels of a request's points. A request without points has none.
pub open spec fn request_labels(inputs: Json) -> Result<Seq<i32>, PromptError> {
    match inputs.field("points"@) {
        None => Ok(Seq::empty()),
        Some(Json::Array(points)) => point_labels(points@),
        Some(_) => Err(PromptError::PointsNotAnArray),
    }
}

fn number_member(object: &Json, key: &str) -> (r: bool)
    ensures
        r == has_number(*object, key@),
{
    match object.get(key) {
        Some(value) => value.is_number(),
        None => false,
    }
}

fn read_label(point: &Json) -> (r: Result<i32, PromptError>)
    ensures
        r == point_label(*point),
{
    if !number_member(point, "x") {
        return Err(PromptError::PointWithoutX);
    }
    if !number_member(point, "y") {
        return Err(PromptError::PointWithoutY);
    }
    match point.get("label") {
        Some(value) => match value.as_i64() {
            Some(label) => Ok(label as i32),
            None => Err(PromptError::PointWithoutLabel),
        },
        None => Err(PromptError::PointWithoutLabel),
    }
}

proof fn lemma_labels_fail(points: Seq<Json>, i: int)
    requires
        0 <= i < points.len(),
        point_labels(points.take(i + 1)) is Err,
    ensures
        point_labels(points) == point_labels(points.take(i + 1)),
    decreases points.len(),
{
    if i == points.len() - 1 {
        assert(points.take(i + 1) =~= points);
    } else {
        assert(points.drop_last().take(i + 1) =~= points.take(i + 1));
        lemma_labels_fail(points.drop_last(), i);
    }
}

/// Checks the points of a request and reads their labels. Where it succeeds,
/// every point has numbers for its coordinates.
pub fn parse_sam_points(inputs: &Json) -> (r: Result<Vec<i32>, PromptError>)
    ensures
        match r {
            Ok(labels) => request_labels(*inputs) == Ok::<Seq<i32>, PromptError>(labels@),
            Err(error) => request_labels(*inputs) == Err::<Seq<i32>, PromptError>(error),
        },
{
    let mut labels: Vec<i32> = Vec::new();
    match inputs.get("points") {
        None => Ok(labels),
        Some(Json::Array(points)) => {
            let mut i: usize = 0;
            assert(points@.take(0) =~= Seq::<Json>::empty());
            assert(labels@ =~= Seq::<i32>::empty());
            while i < points.len()
                invariant
                    i <= points@.len(),
                    request_labels(*inputs) == point_labels(points@),
                    point_labels(points@.take(i as int)) == Ok::<Seq<i32>, PromptError>(labels@),
                decreases points@.len() - i,
            {
                let ghost next = points@.take(i + 1);
                assert(next.drop_last() =~= points@.take(i as int));
                match read_label(&points[i]) {
                    Ok(label) => {
                        labels.push(label);
                    },
                    Err(error) => {
                        proof {
                            lemma_labels_fail(points@, i as int);
                        }
                        return Err(error);
                    },
                }
                i = i + 1;
            }
            assert(points@.take(i as int) =~= points@);
            Ok(labels)
        },
        Some(_) => Err(PromptError::PointsNotAnArray),
    }
}

/// What is wrong with the box of a request, or whether there is one.
pub open spec fn request_box(inputs: Json) -> Result<bool, PromptError> {
    match inputs.field("box"@) {
        None => Ok(false),
        Some(Json::Null) => Ok(false),
        Some(Json::Array(corners)) => if corners@.len() != 4 {
            Err(PromptError::BoxLength)
        } else if !(corners@[0] is Number) {
            Err(PromptError::BoxElement(0))
        } else if !(corners@[1] is Number) {
            Err(PromptError::BoxElement(1))
        } else if !(corners@[2] is Number) {
            Err(PromptError::BoxElement(2))
        } else if !(corners@[3] is Number) {
            Err(PromptError::BoxElement(3))
        } else {
            Ok(true)
        },
        Some(_) => Err(PromptError::BoxNotAnArray),
    }
}

/// Checks the box of a request. Where the answer is true, it is four numbers.
pub fn parse_sam_box(inputs: &Json) -> (r: Result<bool, PromptError>)
    ensures
        r == request_box(*inputs),
{
    match inputs.get("box") {
        None => Ok(false),
        Some(Json::Null) => Ok(false),
        Some(Json::Array(corners)) => {
            if corners.len() != 4 {
                return Err(PromptError::BoxLength);
            }
            let mut i: usize = 0;
            while i < 4
                invariant
                    i <= 4,
                    corners@.len() == 4,
                    inputs.field("box"@) == Some(Json::Array(*corners)),
                    forall|k: int| 0 <= k < i ==> #[trigger] corners@[k] is Number,
                decreases 4 - i,
            {
                if !corners[i].is_number() {
                    return Err(PromptError::BoxElement(i as u32));
                }
                i = i + 1;
            }
            Ok(true)
        },
        Some(_) => Err(PromptError::BoxNotAnArray),
    }
}

/// The coordinates of a polygon in one list: x and y of each point in turn.
pub open spec fn flattened<T>(polygon: Seq<(T, T)>) -> Seq<T>
    decreases polygon.len(),
{
    if polygon.len() == 0 {
        Seq::empty()
    } else {
        flattened(polygon.drop_last()) + seq![polygon.last().0, polygon.last().1]
    }
}

/// Writes a polygon's coordinates into one list.
pub fn flatten_polygon<T: Copy>(polygon: &Vec<(T, T)>) -> (out: Vec<T>)
    ensures
        out@ == flattened(polygon@),
{
    let mut out: Vec<T> = Vec::new();
    let mut i: usize = 0;
    assert(polygon@.take(0) =~= Seq::<(T, T)>::empty());
    while i < polygon.len()
        invariant
            i <= polygon@.len(),
            out@ == flattened(polygon@.take(i as int)),
        decreases polygon@.len() - i,
    {
        let ghost before = out@;
        let (x, y) = polygon[i];
        out.push(x);
        out.push(y);
        assert(out@ =~= before + seq![polygon@[i as int].0, polygon@[i as int].1]);
        assert(polygon@.take(i + 1).drop_last() =~= polygon@.take(i as int));
        i = i + 1;
    }
    assert(polygon@.take(i as int) =~= polygon@);
    out
}

// ----------------------------------------------------------------------------
// Laws
// ----------------------------------------------------------------------------

/// A name stands for a provider only where it is the provider's own in lower case.
pub proof fn lemma_provider_has_one_name(lower: Seq<char>)
    ensures
        provider_of(lower) matches Some(provider) ==> lower == crate::text::lowercased(
            provider.display_name(),
        ),
{
    reveal_strlit("CPU");
    reveal_strlit("CUDA");
    reveal_strlit("ROCm");
    reveal_strlit("DirectML");
    reveal_strlit("CoreML");
    reveal_strlit("cpu");
    reveal_strlit("cuda");
    reveal_strlit("rocm");
    reveal_strlit("directml");
    reveal_strlit("coreml");
    if let Some(provider) = provider_of(lower) {
        assert(crate::text::is_ascii_text(provider.display_name()));
        assert(lower =~= crate::text::lowercased(provider.display_name()));
    }
}

/// Whether a configuration selects a band for a colour: it has an object of bands
/// whose member of the colour's name is an integer.
pub open spec fn selects(config: Json, colour: Seq<char>, index: u64) -> bool {
    config.field("bands"@) matches Some(bands) && bands.field(colour) matches Some(value)
        && value.unsigned_value() == Some(index)
}

/// Each colour takes the band that the configuration selects for it, where 32 bits
/// hold its index.
pub proof fn lemma_selected_bands_are_taken(config: Json, index: u64)
    requires
        index <= u32::MAX,
    ensures
        selects(config, "red"@, index) ==> configured_bands(Some(config)).red == index,
        selects(config, "green"@, index) ==> configured_bands(Some(config)).green == index,
        selects(config, "blue"@, index) ==> configured_bands(Some(config)).blue == index,
{
}

/// A colour for which the configuration selects no band takes the band of its own
/// position: red the first, green the second, blue the third.
pub proof fn lemma_other_bands_are_the_first(config: Json)
    ensures
        configured_bands(None) == (SamBands { red: 0, green: 1, blue: 2 }),
        (forall|index: u64| !#[trigger] selects(config, "red"@, index)) ==> configured_bands(
            Some(config),
        ).red == 0,
        (forall|index: u64| !#[trigger] selects(config, "green"@, index)) ==> configured_bands(
            Some(config),
        ).green == 1,
        (forall|index: u64| !#[trigger] selects(config, "blue"@, index)) ==> configured_bands(
            Some(config),
        ).blue == 2,
{
    if let Some(bands) = config.field("bands"@) {
        if let Some(value) = bands.field("red"@) {
            if let Some(index) = value.unsigned_value() {
                assert(selects(config, "red"@, index));
            }
        }
        if let Some(value) = bands.field("green"@) {
            if let Some(index) = value.unsigned_value() {
                assert(selects(config, "green"@, index));
            }
        }
        if let Some(value) = bands.field("blue"@) {
            if let Some(index) = value.unsigned_value() {
                assert(selects(config, "blue"@, index));
            }
        }
    }
}

/// Whether a configuration names a selection: its three indices under the three
/// colours.
pub open spec fn names_bands(config: Json, bands: SamBands) -> bool {
    &&& selects(config, "red"@, bands.red as u64)
    &&& selects(config, "green"@, bands.green as u64)
    &&& selects(config, "blue"@, bands.blue as u64)
}

/// Reading a configuration that names a selection gives the selection back.
pub proof fn lemma_named_bands_read_back(config: Json, bands: SamBands)
    requires
        names_bands(config, bands),
    ensures
        configured_bands(Some(config)) == bands,
{
}

/// A band that the image has is kept; any other is held at the image's last band; and
/// an image without bands is given the first three.
pub proof fn lemma_existing_bands_are_kept(bands: SamBands, num_bands: nat)
    requires
        num_bands <= u32::MAX,
    ensures
        bands.red < num_bands ==> bands.clamped(num_bands).red == bands.red,
        bands.green < num_bands ==> bands.clamped(num_bands).green == bands.green,
        bands.blue < num_bands ==> bands.clamped(num_bands).blue == bands.blue,
        0 < num_bands <= bands.red ==> bands.clamped(num_bands).red == num_bands - 1,
        0 < num_bands <= bands.green ==> bands.clamped(num_bands).green == num_bands - 1,
        0 < num_bands <= bands.blue ==> bands.clamped(num_bands).blue == num_bands - 1,
        num_bands == 0 ==> bands.clamped(num_bands) == configured_bands(None),
{
}

/// The first three bands are those that are selected without a configuration, and no
/// others.
pub proof fn lemma_default_selection(bands: SamBands)
    ensures
        bands.is_default() <==> bands == configured_bands(None),
        (SamBands { red: 0, green: 1, blue: 2 }).is_default(),
{
}

/// Whether a point can be used: it has two coordinates and a label.
pub open spec fn is_usable_point(point: Json) -> bool {
    has_number(point, "x"@) && has_number(point, "y"@) && (point.field("label"@) matches Some(label)
        && label.signed_value() is Some)
}

/// A point has a label exactly where it can be used; otherwise the first thing that it
/// lacks is named.
pub proof fn lemma_unusable_points(point: Json)
    ensures
        point_label(point) is Ok <==> is_usable_point(point),
        is_usable_point(point) && i32::MIN <= ((point.field("label"@)->0).signed_value()->0)
            <= i32::MAX ==> point_label(point)->Ok_0 == (point.field(
            "label"@,
        )->0).signed_value()->0,
        point_label(point) == Err::<i32, PromptError>(PromptError::PointWithoutX) <==> !has_number(
            point,
            "x"@,
        ),
        point_label(point) == Err::<i32, PromptError>(PromptError::PointWithoutY) <==> has_number(
            point,
            "x"@,
        ) && !has_number(point, "y"@),
        point_label(point) == Err::<i32, PromptError>(PromptError::PointWithoutLabel) <==> (
        has_number(point, "x"@) && has_number(point, "y"@) && !is_usable_point(point)),
{
}

/// Points have labels, one for each in order, exactly where all can be used; otherwise
/// the first that cannot is complained of.
pub proof fn lemma_labels_of_points(points: Seq<Json>)
    ensures
        match point_labels(points) {
            Ok(labels) => {
                &&& labels.len() == points.len()
                &&& forall|i: int|
                    0 <= i < points.len() ==> point_label(#[trigger] points[i]) == Ok::<
                        i32,
                        PromptError,
                    >(labels[i])
            },
            Err(error) => exists|i: int|
                #![trigger points[i]]
                0 <= i < points.len() && point_label(points[i]) == Err::<i32, PromptError>(error)
                    && forall|k: int| 0 <= k < i ==> point_label(#[trigger] points[k]) is Ok,
        },
    decreases points.len(),
{
    if points.len() > 0 {
        let front = points.drop_last();
        lemma_labels_of_points(front);
        match point_labels(front) {
            Ok(labels) => {
                assert forall|k: int| 0 <= k < points.len() - 1 implies point_label(
                    #[trigger] points[k],
                ) == Ok::<i32, PromptError>(labels[k]) by {
                    assert(points[k] == front[k]);
                }
                let last = points.len() - 1;
                assert(points[last] == points.last());
            },
            Err(error) => {
                let i = choose|i: int|
                    #![trigger front[i]]
                    0 <= i < front.len() && point_label(front[i]) == Err::<i32, PromptError>(error)
                        && forall|k: int| 0 <= k < i ==> point_label(#[trigger] front[k]) is Ok;
                assert(points[i] == front[i]);
                assert forall|k: int| 0 <= k < i implies point_label(#[trigger] points[k]) is Ok by {
                    assert(points[k] == front[k]);
                }
            },
        }
    }
}

/// A request that is accepted and whose prompts can be read has a prompt: a labelled
/// point or a box. One without either is not accepted.
pub proof fn lemma_accepted_requests_have_prompts(inputs: Json)
    requires
        request_labels(inputs) is Ok,
        request_box(inputs) is Ok,
    ensures
        has_points(inputs) || has_box(inputs) <==> (request_labels(inputs)->Ok_0).len() > 0
            || request_box(inputs)->Ok_0,
{
    if let Some(Json::Array(points)) = inputs.field("points"@) {
        lemma_labels_of_points(points@);
    }
}

/// A box is four numbers. Where it is not, the first of its elements that is no number
/// is named.
pub proof fn lemma_boxes_are_four_numbers(inputs: Json)
    ensures
        request_box(inputs) == Ok::<bool, PromptError>(true) <==> (inputs.field(
            "box"@,
        ) matches Some(Json::Array(corners)) && corners@.len() == 4 && forall|k: int|
            0 <= k < 4 ==> #[trigger] corners@[k] is Number),
        request_box(inputs) == Ok::<bool, PromptError>(false) <==> !has_box(inputs),
        request_box(inputs) matches Err(PromptError::BoxElement(i)) ==> (inputs.field(
            "box"@,
        ) matches Some(Json::Array(corners)) && i < corners@.len() && !(corners@[i as int] is Number)
            && forall|k: int| 0 <= k < i ==> #[trigger] corners@[k] is Number),
        request_box(inputs) == Err::<bool, PromptError>(PromptError::BoxLength) <==> (inputs.field(
            "box"@,
        ) matches Some(Json::Array(corners)) && corners@.len() != 4),
        request_box(inputs) == Err::<bool, PromptError>(PromptError::BoxNotAnArray) <==> has_box(
            inputs,
        ) && !(inputs.field("box"@)->0 is Array),
{
    if let Some(Json::Array(corners)) = inputs.field("box"@) {
        if corners@.len() == 4 {
            let c = corners@;
            if c[0] is Number && c[1] is Number && c[2] is Number && c[3] is Number {
                assert forall|k: int| 0 <= k < 4 implies #[trigger] c[k] is Number by {
                    assert(k == 0 || k == 1 || k == 2 || k == 3);
                }
            }
        }
    }
}

/// A flattened polygon holds the coordinates of each point in turn.
pub proof fn lemma_flattened_polygon<T>(polygon: Seq<(T, T)>)
    ensures
        flattened(polygon).len() == 2 * polygon.len(),
        forall|i: int|
            0 <= i < polygon.len() ==> flattened(polygon)[2 * i] == (#[trigger] polygon[i]).0
                && flattened(polygon)[2 * i + 1] == polygon[i].1,
    decreases polygon.len(),
{
    if polygon.len() > 0 {
        let front = polygon.drop_last();
        lemma_flattened_polygon(front);
        assert forall|i: int| 0 <= i < polygon.len() implies flattened(polygon)[2 * i] == (
        #[trigger] polygon[i]).0 && flattened(polygon)[2 * i + 1] == polygon[i].1 by {
            if i < polygon.len() - 1 {
                assert(front[i] == polygon[i]);
            }
        }
    }
}

/// The key of an embedding names the image, and behind a hash sign its bands in order:
/// red, green and blue, with colons between them.
pub proof fn lemma_keys_name_image_and_bands(bands: SamBands, image_id: Seq<char>)
    ensures
        ({
            let key = bands.key(image_id);
            let red = crate::text::decimal(bands.red as nat);
            let green = crate::text::decimal(bands.green as nat);
            let blue = crate::text::decimal(bands.blue as nat);
            let red_at = image_id.len() as int + 1;
            let green_at = red_at + red.len() + 1;
            let blue_at = green_at + green.len() + 1;
            &&& key.take(image_id.len() as int) == image_id
            &&& key[red_at - 1] == '#'
            &&& key.subrange(red_at, red_at + red.len()) == red
            &&& key[green_at - 1] == ':'
            &&& key.subrange(green_at, green_at + green.len()) == green
            &&& key[blue_at - 1] == ':'
            &&& key.skip(blue_at) == blue
        }),
{
    let key = bands.key(image_id);
    let red = crate::text::decimal(bands.red as nat);
    let green = crate::text::decimal(bands.green as nat);
    let blue = crate::text::decimal(bands.blue as nat);
    let red_at = image_id.len() as int + 1;
    let green_at = red_at + red.len() + 1;
    let blue_at = green_at + green.len() + 1;
    assert(key.take(image_id.len() as int) =~= image_id);
    assert(key.subrange(red_at, red_at + red.len()) =~= red);
    assert(key.subrange(green_at, green_at + green.len()) =~= green);
    assert(key.skip(blue_at) =~= blue);
}

/// What is told of a prompt tells what is wrong with it: different mistakes are told
/// differently, and a mistake in a box names the element.
pub proof fn lemma_prompt_errors_differ(a: PromptError, b: PromptError)
    ensures
        a.text() == b.text() ==> a == b,
        a matches PromptError::BoxElement(i) ==> a.text().subrange(
            4,
            4 + crate::text::decimal(i as nat).len() as int,
        ) == crate::text::decimal(i as nat),
{
    reveal_strlit("At least one prompt (points or box) is required");
    reveal_strlit("points must be an array");
    reveal_strlit("point missing x");
    reveal_strlit("point missing y");
    reveal_strlit("point missing label");
    reveal_strlit("box must be an array [x1, y1, x2, y2]");
    reveal_strlit("box must have exactly 4 elements");
    reveal_strlit("box[");
    reveal_strlit("] must be a number");
    let ta = a.text();
    let tb = b.text();
    if let PromptError::BoxElement(i) = a {
        let d = crate::text::decimal(i as nat);
        assert(ta.subrange(4, 4 + d.len() as int) =~= d);
        assert(ta.len() == 22 + d.len());
    }
    if let PromptError::BoxElement(i) = b {
        let d = crate::text::decimal(i as nat);
        assert(tb.subrange(4, 4 + d.len() as int) =~= d);
        assert(tb.len() == 22 + d.len());
    }
    if ta == tb {
        if let (PromptError::BoxElement(i), PromptError::BoxElement(j)) = (a, b) {
            crate::text::lemma_decimal_injective(i as nat, j as nat);
        } else {
            assert(ta.len() == tb.len());
            assert(ta[0] == tb[0]);
            assert(ta[3] == tb[3]);
            assert(ta[14] == tb[14]);
        }
    }
}

} // verus!
