//! Replacement of the RVCT software floating-point routines by VFP instructions.

pub mod arm;
pub mod rotinas;
pub mod busca;
pub mod modelo;
pub mod mapa;
pub mod acelera;
pub mod instrucoes;

pub use acelera::acelera;
pub use arm::{copiavel, desvio, destinos, mascara, palavra};
pub use busca::procura;
pub use modelo::{Trampolins, Troca, VFP_BASE, VFP_BASE_ANTIGO};
pub use rotinas::{assinatura, assinaturas_para_teste, corpo, nome, BX_LR, LDR_PC};
pub mod leis;
