//! An electrical rule checker for printed circuit board assemblies.
//!
//! Netlists exported by several ECAD tools are brought into one model of
//! parts, library parts, pins and nets. From the model the power structure is
//! derived, the I2C buses are found and gathered into segments, and findings
//! are drawn up on what looks like a fault of the design.
//!
//! Names are compared by their characters. Sets and maps keep the order in
//! which they were filled, so that every analysis gives the same result when
//! it is run again. Resistances and voltages are whole numbers of micro-ohms
//! and microvolts.
pub mod altium_netlist;
pub mod chains;
pub mod collections;
pub mod config;
pub mod csv_util;
pub mod diagnostics;
pub mod edif_netlist;
pub mod edif_text;
pub mod general;
pub mod i2c;
pub mod i2c_discovery;
pub mod i2c_interconnect;
pub mod i2c_model;
pub mod i2c_nodes;
pub mod i2c_pull_ups;
pub mod i2c_rules;
pub mod i2c_segments;
pub mod kicad_netlist;
pub mod model;
pub mod names;
pub mod netlist;
pub mod order;
pub mod orcad_netlist;
pub mod orcad_text;
pub mod passive_value;
pub mod pattern;
pub mod pcb_assembly;
pub mod pcba;
pub mod pnp;
pub mod power;
pub mod sexp;
pub mod style;
pub mod text;
pub mod text_util;
pub mod wirelist;
pub mod wirelist_text;
