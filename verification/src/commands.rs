//! The user-facing command sets of the bot, one per supported language.
//! The chat layer parses message text into these; the engine only carries
//! them.

use vstd::prelude::*;

verus! {

/// User commands in English.
#[derive(Debug, Clone)]
pub enum CommandEng {
    /// Start a new session.
    Start,
    /// Display the help message for a section.
    Help { section: String },
    /// Check the short position of a stock.
    Short,
    /// Show support information.
    Support,
    /// Show the settings menu.
    Settings,
    /// Show the available subscription plans.
    Plans,
    /// Handle subscriptions.
    Subscriptions,
    /// Short report of the subscribed stocks.
    Brief,
}

/// User commands in Spanish.
#[derive(Debug, Clone)]
pub enum CommandSpa {
    /// Iniciar una nueva sesión.
    Inicio,
    /// Mostrar la ayuda de una sección.
    Ayuda { section: String },
    /// Consultar posiciones de una acción.
    Short,
    /// Mostrar información de apoyo.
    Apoyo,
    /// Mostrar la configuración.
    Configuracion,
    /// Mostrar los planes de subscripción.
    Planes,
    /// Gestionar subscripciones.
    Subscripciones,
    /// Resumen de las posiciones subscritas.
    Resumen,
}

} // verus!
