use data::architecture::unified::{DataRequirements, MigrationConfig};

#[test]
fn test_gradual_migration() {
    let start = MigrationConfig::default();
    assert!(!start.kline_chart_uses_unified());

    let enabled = MigrationConfig { use_unified_data_manager: true, ..MigrationConfig::default() };
    assert!(!enabled.kline_chart_uses_unified());

    let migrated = MigrationConfig { migrate_kline_chart: true, ..enabled };
    assert!(migrated.kline_chart_uses_unified());
    assert!(!migrated.migrate_heatmap_chart);
    assert!(!migrated.migrate_ladder);
}

#[test]
fn default_requirements_need_nothing() {
    let r = DataRequirements::default();
    assert!(!r.needs_klines && !r.needs_trades && !r.needs_depth);
    assert!(!r.needs_open_interest && !r.supports_historical && !r.supports_tick_basis);
}
