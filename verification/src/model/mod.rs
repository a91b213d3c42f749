//! Per-layer caches, their on-disk form, and the weights of a layer.

use vstd::prelude::*;

use crate::config;
use crate::config::{ConfigError, ConfigErrorView, ModelConfig};
use crate::gguf;
use crate::gguf::{
    ContentView, Fraction, GgufError, GgufErrorView, GgufMmap, InfoView, Metadata, TensorError,
    TensorErrorKind, TensorInfo,
};
use crate::text;

pub mod compressor;
pub mod forward;
pub mod indexer;
pub mod kv_cache;
pub mod kv_disk;
pub mod layer;
pub mod weights;

verus! {

/// The weights of a model: its file in memory, and its configuration.
pub struct WeightMap<'a> {
    pub config: ModelConfig,
    gguf: GgufMmap<'a>,
    base: usize,
}

/// What a [`WeightMap`] holds.
pub struct WeightMapView {
    pub config: ModelConfig,
    pub content: ContentView,
    pub file: Seq<u8>,
    /// The address of the first byte of the file.
    pub base: int,
}

/// Why a file gives no weights.
#[derive(Debug)]
pub enum LoadError {
    /// The file cannot be read.
    Gguf(GgufError),
    /// The metadata give no configuration.
    Config(ConfigError),
}

impl LoadError {
    /// The numbers with a fraction that the message names, in their order.
    pub fn fractions(&self) -> (out: Vec<Fraction>)
        ensures
            out@ == match *self {
                LoadError::Gguf(_) => Seq::<Fraction>::empty(),
                LoadError::Config(e) => e@.fractions(),
            },
    {
        match self {
            LoadError::Gguf(_) => Vec::new(),
            LoadError::Config(e) => e.fractions(),
        }
    }

    /// A message for people. `spelled` says how each of
    /// [`LoadError::fractions`] is written.
    pub fn message(&self, spelled: &[String]) -> (s: String)
        requires
            self matches LoadError::Config(e) ==> spelled@.len() == e@.fractions().len(),
        ensures
            s@ == match *self {
                LoadError::Gguf(e) => e@.text(),
                LoadError::Config(e) => e@.text(text::words(spelled@)),
            },
    {
        match self {
            LoadError::Gguf(e) => e.message(),
            LoadError::Config(e) => e.message(spelled),
        }
    }
}

impl<'a> WeightMap<'a> {
    pub closed spec fn view(&self) -> WeightMapView {
        WeightMapView {
            config: self.config,
            content: self.gguf.content@,
            file: self.gguf.mmap@,
            base: self.base as int,
        }
    }

    /// The contents are those of the file.
    pub closed spec fn wf(&self) -> bool {
        self.gguf.wf()
    }

    /// The weights in a file that lies in memory from the address `base` on.
    pub fn new(mmap: &'a [u8], base: usize) -> (r: Result<Self, LoadError>)
        requires
            mmap@.len() <= 0x7FFF_FFFF_FFFF_FFFF,
        ensures
            match r {
                Ok(w) => {
                    &&& w.wf()
                    &&& gguf::content_of(mmap@) == Ok::<ContentView, GgufErrorView>(w@.content)
                    &&& config::config_error(w@.content.metadata) is None
                    &&& w@.config == config::config_of(w@.content.metadata)
                    &&& w@.file == mmap@
                    &&& w@.base == base
                },
                Err(LoadError::Gguf(e)) => gguf::content_of(mmap@) == Err::<
                    ContentView,
                    GgufErrorView,
                >(e@),
                Err(LoadError::Config(e)) => gguf::content_of(mmap@) is Ok && config::config_error(
                    gguf::content_of(mmap@)->Ok_0.metadata,
                ) == Some(e@),
            },
    {
        let gguf = match GgufMmap::new(mmap) {
            Ok(g) => g,
            Err(e) => return Err(LoadError::Gguf(e)),
        };
        match ModelConfig::from_metadata(&gguf.content.metadata) {
            Ok(config) => Ok(WeightMap { config, gguf, base }),
            Err(e) => Err(LoadError::Config(e)),
        }
    }

    /// The configuration of the model.
    pub fn config(&self) -> (c: ModelConfig)
        ensures
            c == self@.config,
    {
        self.config
    }

    /// The bytes of the tensor `name`.
    pub fn tensor_bytes(&self, name: &str) -> (r: Result<&'a [u8], TensorError>)
        ensures
            match r {
                Ok(b) => gguf::bytes_of(self@.content, self@.file, name@) == Ok::<
                    Seq<u8>,
                    TensorErrorKind,
                >(b@),
                Err(e) => e.name@ == name@ && gguf::bytes_of(self@.content, self@.file, name@)
                    == Err::<Seq<u8>, TensorErrorKind>(e.kind),
            },
    {
        self.gguf.tensor_data(name)
    }

    /// The description of the tensor `name`, if there is one.
    pub fn tensor_info(&self, name: &str) -> (r: Option<&TensorInfo>)
        ensures
            match r {
                Some(i) => self@.content.tensors.contains_key(name@) && i@
                    == self@.content.tensors[name@],
                None => !self@.content.tensors.contains_key(name@),
            },
    {
        self.gguf.content.tensors.get(name)
    }

    /// The names of all tensors, each once.
    pub fn tensor_names(&self) -> (names: &Vec<String>)
        requires
            self.wf(),
        ensures
            forall|i: int|
                0 <= i < names@.len() ==> self@.content.tensors.contains_key(
                    (#[trigger] names@[i])@,
                ),
            forall|k: Seq<char>| #[trigger]
                self@.content.tensors.contains_key(k) ==> exists|i: int|
                    0 <= i < names@.len() && (#[trigger] names@[i])@ == k,
            forall|i: int, j: int|
                0 <= i < j < names@.len() ==> (#[trigger] names@[i])@ != (#[trigger] names@[j])@,
    {
        self.gguf.content.tensors.names()
    }

    /// The bytes of the file.
    pub fn mmap(&self) -> (b: &'a [u8])
        ensures
            b@ == self@.file,
    {
        self.gguf.mmap
    }

    /// The metadata of the file.
    pub fn metadata(&self) -> (m: &Metadata)
        ensures
            m@ == self@.content.metadata,
    {
        &self.gguf.content.metadata
    }

    /// The place of the first byte of the tensor `name` in the file, for a
    /// tensor whose bytes can be had, and what is left of its address when it
    /// is divided by four.
    fn misalignment(&self, info: &TensorInfo) -> (r: usize)
        requires
            self@.content.data_offset + info.offset <= usize::MAX,
        ensures
            r == (self@.base + self@.content.data_offset + info.offset) % 4,
    {
        (self.base % 4 + (self.gguf.content.data_offset % 4) as usize + (info.offset % 4) as usize)
            % 4
    }
}

} // verus!
