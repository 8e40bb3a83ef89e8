//! The transform pipeline: decode, one operation, encode, for every item
//! of a batch. What fails for one item is recorded for that item and does
//! not stop the others.

use vstd::prelude::*;
use crate::borders::DEFAULT_THRESHOLD;
use crate::borders::trim_outcome;
use crate::buffer::encoded;
use crate::buffer::OutputFormat;
use crate::buffer::PixelBuffer;
use crate::error::EngineError;
use crate::params::CropParams;
use crate::params::ImageResponse;
use crate::processing::cropped;
use crate::processing::inverted;
use crate::processing::outcome_view;
use crate::processing::Processing;
use crate::raster::Raster;
use crate::wobble::DEFAULT_MAX_OFFSET;
use crate::wobble::displaced;

verus! {

/// The operations that a batch can apply to each of its items.
#[derive(Clone, Copy, Debug, PartialEq, Eq, Structural)]
pub enum Operation {
    Invert,
    Distort,
    Trim,
    Crop(CropParams),
}

/// One uploaded file: its name and its bytes.
pub struct BatchInput {
    pub name: String,
    pub bytes: Vec<u8>,
}

/// What became of one uploaded file: its name, and the encoded result or
/// the reason why there is none.
pub struct BatchEntry {
    pub name: String,
    pub outcome: Result<Vec<u8>, EngineError>,
}

/// What encoding a raster gives.
pub open spec fn encode_outcome(r: Raster, format: OutputFormat) -> Result<Seq<u8>, EngineError> {
    match encoded(r.width, r.height, r.pixels, format == OutputFormat::Png) {
        Some(bytes) => Ok(bytes),
        None => Err(EngineError::EncodeError),
    }
}

/// Whether `res` is a result of the operation on `input`. Every operation
/// but `Distort` has exactly one result.
pub open spec fn is_result_of(op: Operation, input: Raster, res: Result<Raster, EngineError>) -> bool {
    match op {
        Operation::Invert => res == Ok::<Raster, EngineError>(inverted(input)),
        Operation::Distort => exists|samples: Seq<u32>|
            samples.len() == input.pixels.len() && res == Ok::<Raster, EngineError>(
                #[trigger] displaced(input, samples, DEFAULT_MAX_OFFSET),
            ),
        Operation::Trim => res == trim_outcome(input, DEFAULT_THRESHOLD),
        Operation::Crop(p) => res == if PixelBuffer::fits(p.w as nat, p.h as nat) {
            Ok::<Raster, EngineError>(cropped(input, p.x as int, p.y as int, p.w as nat, p.h as nat))
        } else {
            Err::<Raster, EngineError>(EngineError::InvalidParameter)
        },
    }
}

/// What follows an operation: its failure, or its result encoded.
pub open spec fn finish_outcome(res: Result<Raster, EngineError>, format: OutputFormat) -> Result<
    Seq<u8>,
    EngineError,
> {
    match res {
        Ok(r) => encode_outcome(r, format),
        Err(e) => Err(e),
    }
}

/// Whether `outcome` is what the pipeline may report for one file: that
/// the file could not be decoded, or what follows the operation on some
/// well-formed image. Which image a file holds is for the decoder to say.
pub open spec fn is_item_outcome(
    op: Operation,
    format: OutputFormat,
    outcome: Result<Seq<u8>, EngineError>,
) -> bool {
    ||| outcome == Err::<Seq<u8>, EngineError>(EngineError::DecodeError)
    ||| exists|input: Raster, res: Result<Raster, EngineError>|
        input.wf() && #[trigger] is_result_of(op, input, res) && outcome == finish_outcome(
            res,
            format,
        )
}

/// The bytes of an outcome as a sequence.
pub open spec fn bytes_view(outcome: Result<Vec<u8>, EngineError>) -> Result<Seq<u8>, EngineError> {
    match outcome {
        Ok(bytes) => Ok(bytes@),
        Err(e) => Err(e),
    }
}

/// Reads an image from the bytes of a file. The only failure is that the
/// bytes could not be decoded.
pub fn load_image_from_bytes(bytes: &[u8]) -> (res: Result<PixelBuffer, EngineError>)
    ensures
        res matches Err(e) ==> e == EngineError::DecodeError,
        res matches Ok(buf) ==> buf@.wf(),
{
    match PixelBuffer::raw_decode(bytes) {
        Ok(buf) => {
            let _ = buf.dimensions();
            Ok(buf)
        },
        Err(_) => Err(EngineError::DecodeError),
    }
}

/// Writes an image as the bytes of a file.
pub fn get_image_as_bytes(data: &PixelBuffer, format: OutputFormat) -> (res: Result<
    Vec<u8>,
    EngineError,
>)
    ensures
        bytes_view(res) == encode_outcome(data@, format),
{
    match data.raw_encode(format) {
        Ok(bytes) => Ok(bytes),
        Err(_) => Err(EngineError::EncodeError),
    }
}

/// Applies one operation to one image.
pub fn apply(op: Operation, buf: PixelBuffer) -> (res: Result<PixelBuffer, EngineError>)
    ensures
        is_result_of(op, buf@, outcome_view(res)),
        res.is_ok() ==> res.unwrap()@.wf(),
{
    let mut buf = buf;
    match op {
        Operation::Invert => {
            Processing::negative_basic(&mut buf);
            Ok(buf)
        },
        Operation::Distort => {
            Processing::wobble(&mut buf);
            Ok(buf)
        },
        Operation::Trim => Processing::remove_borders(&buf),
        Operation::Crop(p) => {
            if PixelBuffer::size_fits(p.w, p.h) {
                Ok(Processing::crop_image(&buf, p.x, p.y, p.w, p.h))
            } else {
                Err(EngineError::InvalidParameter)
            }
        },
    }
}

/// Ends the work on one item: a failure is passed on, a result is encoded.
pub fn finish(res: Result<PixelBuffer, EngineError>, format: OutputFormat) -> (outcome: Result<
    Vec<u8>,
    EngineError,
>)
    ensures
        bytes_view(outcome) == finish_outcome(outcome_view(res), format),
{
    match res {
        Ok(buf) => get_image_as_bytes(&buf, format),
        Err(e) => Err(e),
    }
}

/// Decodes one file, applies the operation and encodes the result.
pub fn process_item(op: Operation, format: OutputFormat, bytes: &[u8]) -> (outcome: Result<
    Vec<u8>,
    EngineError,
>)
    ensures
        is_item_outcome(op, format, bytes_view(outcome)),
{
    match load_image_from_bytes(bytes) {
        Err(e) => Err(e),
        Ok(buf) => {
            let res = apply(op, buf);
            finish(res, format)
        },
    }
}

/// Runs the pipeline on every file of a batch. The result has one entry
/// per file, in the order of the files and under their names.
pub fn process_batch(op: Operation, format: OutputFormat, inputs: &Vec<BatchInput>) -> (entries:
    Vec<BatchEntry>)
    ensures
        entries@.len() == inputs@.len(),
        forall|i: int|
            0 <= i < inputs@.len() ==> (#[trigger] entries@[i]).name@ == inputs@[i].name@
                && is_item_outcome(op, format, bytes_view(entries@[i].outcome)),
{
    let mut entries: Vec<BatchEntry> = Vec::new();
    let mut i: usize = 0;
    while i < inputs.len()
        invariant
            i <= inputs.len(),
            entries@.len() == i,
            forall|k: int|
                0 <= k < i ==> (#[trigger] entries@[k]).name@ == inputs@[k].name@
                    && is_item_outcome(op, format, bytes_view(entries@[k].outcome)),
        decreases inputs.len() - i,
    {
        let input = &inputs[i];
        let outcome = process_item(op, format, input.bytes.as_slice());
        entries.push(BatchEntry { name: input.name.clone(), outcome });
        i = i + 1;
    }
    entries
}

impl BatchEntry {
    /// The response entry of an item that succeeded, or the reason why the
    /// item failed.
    pub fn to_response(&self) -> (res: Result<ImageResponse, EngineError>)
        ensures
            match res {
                Ok(entry) => self.outcome.is_ok() && entry.name@ == self.name@ && entry.data@
                    == self.outcome.unwrap()@,
                Err(e) => self.outcome == Err::<Vec<u8>, EngineError>(e),
            },
    {
        match &self.outcome {
            Ok(data) => Ok(ImageResponse::new(self.name.clone(), data.clone())),
            Err(e) => Err(*e),
        }
    }
}

} // verus!
