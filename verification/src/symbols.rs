//! The symbols of the workspace.
use vstd::prelude::*;

use crate::constants::{BuildStatus, BuildSteps, EntryPointType, SymType, SymbolId};
use crate::function_symbol::FunctionSymbol;
use crate::handles::{Handle, HandleMap, HandleSet};
use crate::model::ModelData;
use crate::names::NameMap;
use crate::variable_symbol::VariableSymbol;
use crate::xml_data::OdooData;

verus! {

/// An Odoo module.
pub struct ModuleSymbol {
    /// Name of the module's directory, by which other modules depend on it.
    pub dir_name: String,
    /// Directory names of all modules that it depends on, directly or not.
    pub all_depends: Vec<String>,
    /// The XML files that declare data for this module, by XML ID.
    pub xml_id_locations: NameMap<HandleSet>,
}

/// An XML data file.
pub struct XmlFileSymbol {
    pub arch_status: BuildStatus,
    pub validation_status: BuildStatus,
    /// The declarations of the file, by XML ID without module.
    pub xml_ids: NameMap<Vec<OdooData>>,
    /// Files whose evaluation must be done before this file is validated.
    pub dependencies: HandleSet,
    pub model_dependencies: HandleSet,
    /// Models that were looked for in vain, and in which step.
    pub not_found_models: NameMap<BuildSteps>,
}

/// A Python file, or the `__init__.py` of a package.
pub struct FileSymbol {
    /// Files to validate again when the evaluation of this one changes.
    pub dependents: HandleSet,
    /// Symbols that the file declares on other objects.
    pub decl_ext_symbols: HandleMap,
}

/// A Python class.
pub struct ClassSymbol {
    /// Present on classes of Odoo models.
    pub model: Option<ModelData>,
    /// Odoo fields that the class itself or one of its Python bases declares.
    pub fields: NameMap<Vec<SymbolId>>,
    /// Symbols that the class declares on other objects.
    pub decl_ext_symbols: HandleMap,
}

/// What only symbols of one type carry.
pub enum SymbolData {
    Module(ModuleSymbol),
    XmlFile(XmlFileSymbol),
    File(FileSymbol),
    Class(ClassSymbol),
    Function(FunctionSymbol),
    Variable(VariableSymbol),
    Other(SymType),
}

impl SymbolData {
    /// Whether no map holds a name twice.
    pub open spec fn keyed_once(self) -> bool {
        match self {
            SymbolData::Module(module) => module.xml_id_locations.distinct(),
            SymbolData::XmlFile(file) => file.xml_ids.distinct()
                && file.not_found_models.distinct(),
            SymbolData::Class(class) => class.fields.distinct(),
            _ => true,
        }
    }
}

/// A symbol of the workspace.
pub struct Symbol {
    pub handle: Handle,
    pub name: String,
    /// The module that the symbol belongs to.
    pub module: Option<SymbolId>,
    /// The file that the symbol stands in.
    pub file: Option<SymbolId>,
    /// The outermost function around the symbol.
    pub outer_function: Option<SymbolId>,
    /// The kind of entry point that the symbol was reached from.
    pub entry: Option<EntryPointType>,
    pub paths: Vec<String>,
    pub data: SymbolData,
}

impl Symbol {
    /// The type of the symbol.
    pub open spec fn typ(self) -> SymType {
        match self.data {
            SymbolData::Module(_) => SymType::PACKAGE,
            SymbolData::XmlFile(_) => SymType::XML_FILE,
            SymbolData::File(_) => SymType::FILE,
            SymbolData::Class(_) => SymType::CLASS,
            SymbolData::Function(_) => SymType::FUNCTION,
            SymbolData::Variable(_) => SymType::VARIABLE,
            SymbolData::Other(typ) => typ,
        }
    }

    /// The symbol with the status of a build step replaced, where symbols of its type
    /// have that step.
    pub open spec fn with_status(self, step: BuildSteps, status: BuildStatus) -> Symbol {
        match (self.data, step) {
            (SymbolData::XmlFile(f), BuildSteps::ARCH) => Symbol {
                data: SymbolData::XmlFile(XmlFileSymbol { arch_status: status, ..f }),
                ..self
            },
            (SymbolData::XmlFile(f), BuildSteps::VALIDATION) => Symbol {
                data: SymbolData::XmlFile(XmlFileSymbol { validation_status: status, ..f }),
                ..self
            },
            (SymbolData::Function(f), BuildSteps::ARCH) => Symbol {
                data: SymbolData::Function(FunctionSymbol { arch_status: status, ..f }),
                ..self
            },
            (SymbolData::Function(f), BuildSteps::ARCH_EVAL) => Symbol {
                data: SymbolData::Function(FunctionSymbol { arch_eval_status: status, ..f }),
                ..self
            },
            (SymbolData::Function(f), BuildSteps::VALIDATION) => Symbol {
                data: SymbolData::Function(FunctionSymbol { validation_status: status, ..f }),
                ..self
            },
            _ => self,
        }
    }

    /// Sets the status of a build step, where symbols of this type have that step.
    pub fn set_build_status(&mut self, step: BuildSteps, status: BuildStatus)
        ensures
            *final(self) == old(self).with_status(step, status),
    {
        match &mut self.data {
            SymbolData::XmlFile(file) => {
                match step {
                    BuildSteps::ARCH => {
                        file.arch_status = status;
                    },
                    BuildSteps::VALIDATION => {
                        file.validation_status = status;
                    },
                    _ => {},
                }
            },
            SymbolData::Function(function) => {
                match step {
                    BuildSteps::ARCH => {
                        function.arch_status = status;
                    },
                    BuildSteps::ARCH_EVAL => {
                        function.arch_eval_status = status;
                    },
                    BuildSteps::VALIDATION => {
                        function.validation_status = status;
                    },
                    _ => {},
                }
            },
            _ => {},
        }
    }

    /// The type of the symbol.
    pub fn get_type(&self) -> (r: SymType)
        ensures
            r == self.typ(),
    {
        match &self.data {
            SymbolData::Module(_) => SymType::PACKAGE,
            SymbolData::XmlFile(_) => SymType::XML_FILE,
            SymbolData::File(_) => SymType::FILE,
            SymbolData::Class(_) => SymType::CLASS,
            SymbolData::Function(_) => SymType::FUNCTION,
            SymbolData::Variable(_) => SymType::VARIABLE,
            SymbolData::Other(typ) => *typ,
        }
    }
}

} // verus!
