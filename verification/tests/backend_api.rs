use nexxus::backend_api::{BackendCapabilities, BackendError, BackendKind, GraphicsBackend, OutputInfo};

struct DummyBackend;

impl GraphicsBackend for DummyBackend {
    fn kind(&self) -> BackendKind {
        BackendKind::X11
    }

    fn capabilities(&self) -> BackendCapabilities {
        BackendCapabilities { multi_monitor: true, hotplug: true, xwayland_compatibility: false }
    }

    fn start(&mut self) -> Result<(), BackendError> {
        Ok(())
    }

    fn stop(&mut self) -> Result<(), BackendError> {
        Ok(())
    }

    fn outputs(&self) -> Result<Vec<OutputInfo>, BackendError> {
        Ok(Vec::new())
    }
}

#[test]
fn a_backend_can_satisfy_the_neutral_contract_without_native_handles() {
    let mut backend = DummyBackend;
    backend.start().unwrap();
    assert_eq!(backend.kind(), BackendKind::X11);
    assert!(backend.outputs().unwrap().is_empty());
    backend.stop().unwrap();
}

#[test]
fn output_ids_keep_their_text_and_refuse_blank_values() {
    assert_eq!(nexxus::backend_api::OutputId::new("  ").unwrap_err(), "output id cannot be empty");
    assert_eq!(nexxus::backend_api::OutputId::new(" HDMI-1 ").unwrap().as_str(), " HDMI-1 ");
}
